//! The pairing code (SAS, short authentication string).
//!
//! After connecting, each side sends a fresh 16-byte nonce and exports 32
//! bytes of keying material from the live TLS session (RFC 5705, label
//! [`EXPORTER_LABEL`]).  Both sides then hash their two endpoint ids, the ALPN,
//! both nonces and the exported bytes with BLAKE3 and keep 30 bits of the
//! digest, shown as `XXXXX-XXXXX`.  The users compare the codes over another
//! channel: a peer who swapped the ticket holds another endpoint key and
//! another TLS session, so the two codes differ.
use vstd::prelude::*;
use crate::entropy::fill_random;
use zeroize::Zeroize;

verus! {

/// Length of a pairing nonce, in bytes.
pub const NONCE_LEN: usize = 16;

/// Number of bits of the pairing code.
pub const SAS_BITS: u32 = 30;

/// Domain separator that starts every pairing transcript: `bluewren-sas-v2\0`.
pub const SAS_DOMAIN: [u8; 16] = [
    0x62, 0x6c, 0x75, 0x65, 0x77, 0x72, 0x65, 0x6e, 0x2d, 0x73, 0x61, 0x73, 0x2d, 0x76, 0x32, 0x00,
];

/// Label of the TLS keying-material export: `EXPORTER-bluewren-sas-v2`.
pub const EXPORTER_LABEL: [u8; 24] = [
    0x45, 0x58, 0x50, 0x4f, 0x52, 0x54, 0x45, 0x52, 0x2d, 0x62, 0x6c, 0x75, 0x65, 0x77, 0x72, 0x65,
    0x6e, 0x2d, 0x73, 0x61, 0x73, 0x2d, 0x76, 0x32,
];

/// Number of bytes exported from the TLS session for the pairing code.
pub const EXPORTED_LEN: usize = 32;

/// Draws a fresh nonce from the operating system's random source.
///
/// All sixteen bytes come from the random source; nothing is stated of their
/// values.
pub fn random_nonce() -> (nonce: [u8; NONCE_LEN])
    ensures
        nonce@.len() == NONCE_LEN,
{
    let mut nonce = [0u8; NONCE_LEN];
    fill_random(&mut nonce);
    nonce
}

// ---------------------------------------------------------------------------
// The transcript that is hashed
// ---------------------------------------------------------------------------

/// The four bytes of `n`, most significant first (`u32::to_be_bytes`).
pub open spec fn u32_be(n: u32) -> Seq<u8> {
    seq![(n >> 24u32) as u8, (n >> 16u32) as u8, (n >> 8u32) as u8, n as u8]
}

/// A field preceded by its length as four big-endian bytes.  The length is
/// taken modulo 2^32, as the conversion to `u32` does.
pub open spec fn length_prefixed(field: Seq<u8>) -> Seq<u8> {
    u32_be(field.len() as u32) + field
}

/// Lexicographic order on byte strings from position `i` on, as `<=` orders
/// slices: a proper prefix comes first.
pub open spec fn lex_le_from(a: Seq<u8>, b: Seq<u8>, i: nat) -> bool
    decreases a.len() - i,
{
    if i >= a.len() {
        true
    } else if i >= b.len() {
        false
    } else if a[i as int] < b[i as int] {
        true
    } else if a[i as int] > b[i as int] {
        false
    } else {
        lex_le_from(a, b, i + 1)
    }
}

/// `a <= b` for byte slices: the lexicographic order.
pub open spec fn lex_le(a: Seq<u8>, b: Seq<u8>) -> bool {
    lex_le_from(a, b, 0)
}

/// The transcript for ids already put in order, each nonce next to its id's
/// place: the domain separator, then every field with its length prefix, the
/// exported keying material last.
pub open spec fn ordered_transcript(
    id_a: Seq<u8>,
    id_b: Seq<u8>,
    alpn: Seq<u8>,
    nonce_a: Seq<u8>,
    nonce_b: Seq<u8>,
    exported: Seq<u8>,
) -> Seq<u8> {
    SAS_DOMAIN@ + length_prefixed(id_a) + length_prefixed(id_b) + length_prefixed(alpn)
        + length_prefixed(nonce_a) + length_prefixed(nonce_b) + length_prefixed(exported)
}

/// The transcript of a pairing: the two ids in lexicographic order, each
/// followed later by the nonce of the same side, so that both sides compute
/// the same bytes; the keying material exported from the TLS session ends it.
pub open spec fn sas_transcript_of(
    local_id: Seq<u8>,
    remote_id: Seq<u8>,
    alpn: Seq<u8>,
    local_nonce: Seq<u8>,
    remote_nonce: Seq<u8>,
    exported: Seq<u8>,
) -> Seq<u8> {
    if lex_le(local_id, remote_id) {
        ordered_transcript(local_id, remote_id, alpn, local_nonce, remote_nonce, exported)
    } else {
        ordered_transcript(remote_id, local_id, alpn, remote_nonce, local_nonce, exported)
    }
}

/// The BLAKE3 digest (32 bytes) of `input`, as `blake3::hash` computes it.
pub uninterp spec fn blake3_digest(input: Seq<u8>) -> Seq<u8>;

/// `blake3::hash`: the 32-byte BLAKE3 digest of `input`.
///
/// The contract names the digest `blake3_digest(input)`: BLAKE3 is a fixed
/// function of its input, and `blake3::hash(x)` equals feeding `x` to a
/// `Hasher` in any number of `update` calls and calling `finalize`.
#[verifier::external_body]
fn blake3_hash(input: &[u8]) -> (digest: [u8; 32])
    ensures
        digest@ == blake3_digest(input@),
{
    *blake3::hash(input).as_bytes()
}

/// The pairing code carried by a digest: the 32 bits of its first four bytes,
/// most significant first, cut down to the top [`SAS_BITS`] bits.
pub open spec fn sas_value(digest: Seq<u8>) -> nat {
    ((digest[0] as nat) * 16777216 + (digest[1] as nat) * 65536 + (digest[2] as nat) * 256
        + (digest[3] as nat)) / 4
}

/// The pairing code of a pairing: the code carried by the BLAKE3 digest of
/// its transcript.
pub open spec fn spec_compute_sas(
    local_id: Seq<u8>,
    remote_id: Seq<u8>,
    alpn: Seq<u8>,
    local_nonce: Seq<u8>,
    remote_nonce: Seq<u8>,
    exported: Seq<u8>,
) -> nat {
    sas_value(
        blake3_digest(
            sas_transcript_of(local_id, remote_id, alpn, local_nonce, remote_nonce, exported),
        ),
    )
}

/// `a <= b` on byte slices, in lexicographic order.
pub fn bytes_le(a: &[u8], b: &[u8]) -> (r: bool)
    ensures
        r == lex_le(a@, b@),
{
    let mut i: usize = 0;
    while i < a.len() && i < b.len() && a[i] == b[i]
        invariant
            i <= a@.len(),
            i <= b@.len(),
            lex_le_from(a@, b@, i as nat) == lex_le(a@, b@),
        decreases a@.len() - i,
    {
        i = i + 1;
    }
    if i >= a.len() {
        true
    } else if i >= b.len() {
        false
    } else {
        a[i] < b[i]
    }
}

/// Appends `field` to `out` with its length as four big-endian bytes in front.
fn write_field(out: &mut Vec<u8>, field: &[u8])
    ensures
        final(out)@ == old(out)@ + length_prefixed(field@),
{
    let n = field.len() as u32;
    out.push((n >> 24u32) as u8);
    out.push((n >> 16u32) as u8);
    out.push((n >> 8u32) as u8);
    out.push(n as u8);
    let mut i: usize = 0;
    while i < field.len()
        invariant
            i <= field@.len(),
            out@ == old(out)@ + u32_be(field@.len() as u32) + field@.subrange(0, i as int),
        decreases field@.len() - i,
    {
        out.push(field[i]);
        i = i + 1;
    }
    assert(field@.subrange(0, field@.len() as int) == field@);
}

/// The bytes that are hashed into the pairing code.
///
/// The ids are put in lexicographic order and each nonce goes with its id, so
/// that the listening and the connecting side build the same transcript.
pub fn sas_transcript(
    local_id: &[u8],
    remote_id: &[u8],
    alpn: &[u8],
    local_nonce: &[u8],
    remote_nonce: &[u8],
    exported: &[u8],
) -> (t: Vec<u8>)
    ensures
        t@ == sas_transcript_of(
            local_id@,
            remote_id@,
            alpn@,
            local_nonce@,
            remote_nonce@,
            exported@,
        ),
{
    let (id_a, id_b, nonce_a, nonce_b) = if bytes_le(local_id, remote_id) {
        (local_id, remote_id, local_nonce, remote_nonce)
    } else {
        (remote_id, local_id, remote_nonce, local_nonce)
    };
    let mut t: Vec<u8> = Vec::new();
    let mut i: usize = 0;
    while i < SAS_DOMAIN.len()
        invariant
            i <= 16,
            t@ == SAS_DOMAIN@.subrange(0, i as int),
        decreases 16 - i,
    {
        t.push(SAS_DOMAIN[i]);
        i = i + 1;
    }
    assert(SAS_DOMAIN@.subrange(0, 16) == SAS_DOMAIN@);
    write_field(&mut t, id_a);
    write_field(&mut t, id_b);
    write_field(&mut t, alpn);
    write_field(&mut t, nonce_a);
    write_field(&mut t, nonce_b);
    write_field(&mut t, exported);
    t
}

/// The pairing code carried by a BLAKE3 digest: the top [`SAS_BITS`] bits of
/// its first three bytes read as a big-endian number.
pub fn sas_from_digest(digest: &[u8; 32]) -> (r: u32)
    ensures
        r == sas_value(digest@),
        r < 1u32 << SAS_BITS,
{
    let raw = (digest[0] as u32) * 16777216 + (digest[1] as u32) * 65536 + (digest[2] as u32)
        * 256 + (digest[3] as u32);
    assert(1u32 << 30u32 == 1073741824) by (bit_vector);
    raw / 4
}

/// Computes the pairing code.
///
/// Listening and connecting side compute the same code: the ids are put in
/// lexicographic order and each nonce goes with its id.  `exported` is the
/// keying material that both sides export from their TLS session, which binds
/// the code to that session.  Every field is length-prefixed, so no two
/// different field lists hash the same bytes.  The transcript, which holds the
/// nonces and the exported bytes, is wiped before it is freed.
pub fn compute_sas(
    local_id: &[u8],
    remote_id: &[u8],
    alpn: &[u8],
    local_nonce: &[u8],
    remote_nonce: &[u8],
    exported: &[u8],
) -> (r: u32)
    ensures
        r == spec_compute_sas(local_id@, remote_id@, alpn@, local_nonce@, remote_nonce@, exported@),
        r < 1u32 << SAS_BITS,
{
    let mut transcript = sas_transcript(
        local_id,
        remote_id,
        alpn,
        local_nonce,
        remote_nonce,
        exported,
    );
    let digest = blake3_hash(transcript.as_slice());
    wipe_bytes(&mut transcript);
    sas_from_digest(&digest)
}

/// `zeroize::Zeroize::zeroize` on a byte vector: overwrites its elements and
/// its spare capacity with zeros (volatile writes that the compiler keeps) and
/// sets its length to 0.
#[verifier::external_body]
fn wipe_bytes(buf: &mut Vec<u8>)
    ensures
        final(buf)@ == Seq::<u8>::empty(),
{
    buf.zeroize();
}

// ---------------------------------------------------------------------------
// Laws
// ---------------------------------------------------------------------------

proof fn lemma_lex_from_total(a: Seq<u8>, b: Seq<u8>, i: nat)
    requires
        i <= a.len(),
        i <= b.len(),
        a.subrange(0, i as int) == b.subrange(0, i as int),
    ensures
        lex_le_from(a, b, i) || lex_le_from(b, a, i),
        lex_le_from(a, b, i) && lex_le_from(b, a, i) ==> a == b,
    decreases a.len() - i,
{
    if i < a.len() && i < b.len() && a[i as int] == b[i as int] {
        assert(a.subrange(0, (i + 1) as int) == a.subrange(0, i as int).push(a[i as int]));
        assert(b.subrange(0, (i + 1) as int) == b.subrange(0, i as int).push(b[i as int]));
        lemma_lex_from_total(a, b, i + 1);
    } else if i >= a.len() && i >= b.len() {
        assert(a == a.subrange(0, i as int));
        assert(b == b.subrange(0, i as int));
    }
}

/// For two different byte strings, exactly one comes first in lexicographic
/// order.
pub proof fn lemma_lex_le_strict_total(a: Seq<u8>, b: Seq<u8>)
    requires
        a != b,
    ensures
        lex_le(a, b) != lex_le(b, a),
{
    assert(a.subrange(0, 0) == b.subrange(0, 0));
    lemma_lex_from_total(a, b, 0);
}

/// Both sides of a connection compute the same transcript, hence the same
/// pairing code, when each passes its own id and nonce as the local ones and
/// both pass the keying material of their common TLS session.  This holds
/// whenever the two endpoint ids differ.
pub proof fn lemma_sas_symmetric(
    local_id: Seq<u8>,
    remote_id: Seq<u8>,
    alpn: Seq<u8>,
    local_nonce: Seq<u8>,
    remote_nonce: Seq<u8>,
    exported: Seq<u8>,
)
    requires
        local_id != remote_id,
    ensures
        sas_transcript_of(local_id, remote_id, alpn, local_nonce, remote_nonce, exported)
            == sas_transcript_of(remote_id, local_id, alpn, remote_nonce, local_nonce, exported),
        spec_compute_sas(local_id, remote_id, alpn, local_nonce, remote_nonce, exported)
            == spec_compute_sas(remote_id, local_id, alpn, remote_nonce, local_nonce, exported),
{
    lemma_lex_le_strict_total(local_id, remote_id);
}

proof fn lemma_u32_be_injective(n: u32, m: u32)
    requires
        u32_be(n) == u32_be(m),
    ensures
        n == m,
{
    assert(u32_be(n)[0] == u32_be(m)[0]);
    assert(u32_be(n)[1] == u32_be(m)[1]);
    assert(u32_be(n)[2] == u32_be(m)[2]);
    assert(u32_be(n)[3] == u32_be(m)[3]);
    assert(((n >> 24u32) as u8 == (m >> 24u32) as u8 && (n >> 16u32) as u8 == (m >> 16u32) as u8
        && (n >> 8u32) as u8 == (m >> 8u32) as u8 && n as u8 == m as u8) ==> n == m)
        by (bit_vector);
}

/// A length-prefixed field followed by anything can be split in one way only.
proof fn lemma_length_prefixed_split(x: Seq<u8>, rx: Seq<u8>, y: Seq<u8>, ry: Seq<u8>)
    requires
        x.len() <= u32::MAX,
        y.len() <= u32::MAX,
        length_prefixed(x) + rx == length_prefixed(y) + ry,
    ensures
        x == y,
        rx == ry,
{
    let lx = length_prefixed(x) + rx;
    let ly = length_prefixed(y) + ry;
    assert(lx.subrange(0, 4) == u32_be(x.len() as u32));
    assert(ly.subrange(0, 4) == u32_be(y.len() as u32));
    lemma_u32_be_injective(x.len() as u32, y.len() as u32);
    assert(x.len() == y.len());
    assert(lx.subrange(4, (4 + x.len()) as int) == x);
    assert(ly.subrange(4, (4 + y.len()) as int) == y);
    assert(lx.skip((4 + x.len()) as int) == rx);
    assert(ly.skip((4 + y.len()) as int) == ry);
}

/// The transcript determines every field: no two different lists of fields
/// (ids, ALPN, nonces, exported keying material) give the same bytes, because
/// every field carries its length.  Fields are at most `u32::MAX` bytes long,
/// as the length prefix has four bytes.
pub proof fn lemma_ordered_transcript_injective(
    a1: Seq<u8>,
    b1: Seq<u8>,
    c1: Seq<u8>,
    d1: Seq<u8>,
    e1: Seq<u8>,
    f1: Seq<u8>,
    a2: Seq<u8>,
    b2: Seq<u8>,
    c2: Seq<u8>,
    d2: Seq<u8>,
    e2: Seq<u8>,
    f2: Seq<u8>,
)
    requires
        a1.len() <= u32::MAX,
        b1.len() <= u32::MAX,
        c1.len() <= u32::MAX,
        d1.len() <= u32::MAX,
        e1.len() <= u32::MAX,
        f1.len() <= u32::MAX,
        a2.len() <= u32::MAX,
        b2.len() <= u32::MAX,
        c2.len() <= u32::MAX,
        d2.len() <= u32::MAX,
        e2.len() <= u32::MAX,
        f2.len() <= u32::MAX,
        ordered_transcript(a1, b1, c1, d1, e1, f1) == ordered_transcript(a2, b2, c2, d2, e2, f2),
    ensures
        a1 == a2,
        b1 == b2,
        c1 == c2,
        d1 == d2,
        e1 == e2,
        f1 == f2,
{
    let t1 = ordered_transcript(a1, b1, c1, d1, e1, f1);
    let t2 = ordered_transcript(a2, b2, c2, d2, e2, f2);
    let r1f = length_prefixed(f1);
    let r2f = length_prefixed(f2);
    let r1e = length_prefixed(e1) + r1f;
    let r2e = length_prefixed(e2) + r2f;
    let r1d = length_prefixed(d1) + r1e;
    let r2d = length_prefixed(d2) + r2e;
    let r1c = length_prefixed(c1) + r1d;
    let r2c = length_prefixed(c2) + r2d;
    let r1b = length_prefixed(b1) + r1c;
    let r2b = length_prefixed(b2) + r2c;
    let r1a = length_prefixed(a1) + r1b;
    let r2a = length_prefixed(a2) + r2b;
    assert(t1 == SAS_DOMAIN@ + r1a);
    assert(t2 == SAS_DOMAIN@ + r2a);
    assert(t1.skip(16) == r1a);
    assert(t2.skip(16) == r2a);
    lemma_length_prefixed_split(a1, r1b, a2, r2b);
    lemma_length_prefixed_split(b1, r1c, b2, r2c);
    lemma_length_prefixed_split(c1, r1d, c2, r2d);
    lemma_length_prefixed_split(d1, r1e, d2, r2e);
    lemma_length_prefixed_split(e1, r1f, e2, r2f);
    assert(r1f == length_prefixed(f1) + Seq::<u8>::empty());
    assert(r2f == length_prefixed(f2) + Seq::<u8>::empty());
    lemma_length_prefixed_split(f1, Seq::<u8>::empty(), f2, Seq::<u8>::empty());
}

/// Two pairings hash the same transcript only when they have the same ALPN,
/// the same exported keying material and the same two (id, nonce) pairs, seen
/// from the same side or from the other one.  Changing a peer id, a nonce or
/// the TLS session changes the transcript.
pub proof fn lemma_transcript_binds_pairing(
    local_id1: Seq<u8>,
    remote_id1: Seq<u8>,
    alpn1: Seq<u8>,
    local_nonce1: Seq<u8>,
    remote_nonce1: Seq<u8>,
    exported1: Seq<u8>,
    local_id2: Seq<u8>,
    remote_id2: Seq<u8>,
    alpn2: Seq<u8>,
    local_nonce2: Seq<u8>,
    remote_nonce2: Seq<u8>,
    exported2: Seq<u8>,
)
    requires
        local_id1.len() <= u32::MAX,
        remote_id1.len() <= u32::MAX,
        alpn1.len() <= u32::MAX,
        local_nonce1.len() <= u32::MAX,
        remote_nonce1.len() <= u32::MAX,
        exported1.len() <= u32::MAX,
        local_id2.len() <= u32::MAX,
        remote_id2.len() <= u32::MAX,
        alpn2.len() <= u32::MAX,
        local_nonce2.len() <= u32::MAX,
        remote_nonce2.len() <= u32::MAX,
        exported2.len() <= u32::MAX,
        sas_transcript_of(local_id1, remote_id1, alpn1, local_nonce1, remote_nonce1, exported1)
            == sas_transcript_of(
            local_id2,
            remote_id2,
            alpn2,
            local_nonce2,
            remote_nonce2,
            exported2,
        ),
    ensures
        alpn1 == alpn2,
        exported1 == exported2,
        (local_id1 == local_id2 && remote_id1 == remote_id2 && local_nonce1 == local_nonce2
            && remote_nonce1 == remote_nonce2) || (local_id1 == remote_id2 && remote_id1
            == local_id2 && local_nonce1 == remote_nonce2 && remote_nonce1 == local_nonce2),
{
    if lex_le(local_id1, remote_id1) {
        if lex_le(local_id2, remote_id2) {
            lemma_ordered_transcript_injective(
                local_id1, remote_id1, alpn1, local_nonce1, remote_nonce1, exported1,
                local_id2, remote_id2, alpn2, local_nonce2, remote_nonce2, exported2,
            );
        } else {
            lemma_ordered_transcript_injective(
                local_id1, remote_id1, alpn1, local_nonce1, remote_nonce1, exported1,
                remote_id2, local_id2, alpn2, remote_nonce2, local_nonce2, exported2,
            );
        }
    } else {
        if lex_le(local_id2, remote_id2) {
            lemma_ordered_transcript_injective(
                remote_id1, local_id1, alpn1, remote_nonce1, local_nonce1, exported1,
                local_id2, remote_id2, alpn2, local_nonce2, remote_nonce2, exported2,
            );
        } else {
            lemma_ordered_transcript_injective(
                remote_id1, local_id1, alpn1, remote_nonce1, local_nonce1, exported1,
                remote_id2, local_id2, alpn2, remote_nonce2, local_nonce2, exported2,
            );
        }
    }
}

// ---------------------------------------------------------------------------
// Display of the code
// ---------------------------------------------------------------------------

/// The decimal digit character for `d` (0 to 9).
pub open spec fn digit_char(d: nat) -> char {
    (48 + d) as char
}

/// A decimal digit character `0`..`9`.
pub open spec fn is_digit(c: char) -> bool {
    48 <= (c as u32) && (c as u32) <= 57
}

/// The decimal representation of `n`, without leading zeros.
pub open spec fn decimal(n: nat) -> Seq<char>
    decreases n,
{
    if n < 10 {
        seq![digit_char(n)]
    } else {
        decimal(n / 10).push(digit_char(n % 10))
    }
}

/// `k` zero characters.
pub open spec fn zeros(k: nat) -> Seq<char> {
    Seq::new(k, |_i: int| '0')
}

/// The decimal representation of `n` filled with leading zeros up to `width`
/// characters, as `format!("{:0width$}", n)` writes it.
pub open spec fn zero_padded(n: nat, width: nat) -> Seq<char> {
    if decimal(n).len() < width {
        zeros((width - decimal(n).len()) as nat) + decimal(n)
    } else {
        decimal(n)
    }
}

/// The displayed form of a pairing code: its ten-digit, zero-filled decimal
/// form cut in two groups of five by a hyphen, `XXXXX-XXXXX`.
pub open spec fn sas_code(value: u32) -> Seq<char> {
    zero_padded((value / 100000) as nat, 5) + seq!['-'] + zero_padded((value % 100000) as nat, 5)
}

/// The number that a string of decimal digits stands for.
pub open spec fn digits_value(s: Seq<char>) -> nat
    decreases s.len(),
{
    if s.len() == 0 {
        0
    } else {
        digits_value(s.drop_last()) * 10 + ((s.last() as u32) - 48) as nat
    }
}

fn digit(d: u32) -> (c: char)
    requires
        d < 10,
    ensures
        c == digit_char(d as nat),
{
    ((48 + d) as u8) as char
}

/// Appends the decimal representation of `n`.
fn push_decimal(out: &mut String, n: u32)
    ensures
        final(out)@ == old(out)@ + decimal(n as nat),
    decreases n,
{
    if n >= 10 {
        push_decimal(out, n / 10);
    }
    out.push(digit(n % 10));
    proof {
        if n >= 10 {
            assert(old(out)@ + decimal((n / 10) as nat) + seq![digit_char((n % 10) as nat)]
                == old(out)@ + decimal(n as nat));
        } else {
            assert(old(out)@.push(digit_char(n as nat)) == old(out)@ + decimal(n as nat));
        }
    }
}

/// The number of decimal digits of `n`.
fn decimal_len(n: u32) -> (len: usize)
    ensures
        len == decimal(n as nat).len(),
        1 <= len <= 10,
    decreases n,
{
    if n < 10 {
        1
    } else {
        proof {
            reveal_with_fuel(pow10, 11);
            lemma_decimal_len_at_most(n as nat, 10);
        }
        1 + decimal_len(n / 10)
    }
}

/// Appends `n` in decimal, filled with leading zeros up to `width` characters.
fn push_zero_padded(out: &mut String, n: u32, width: usize)
    ensures
        final(out)@ == old(out)@ + zero_padded(n as nat, width as nat),
{
    let len = decimal_len(n);
    let fill: usize = if len < width {
        width - len
    } else {
        0
    };
    let mut i: usize = 0;
    while i < fill
        invariant
            i <= fill,
            out@ == old(out)@ + zeros(i as nat),
        decreases fill - i,
    {
        out.push('0');
        i = i + 1;
        assert(zeros((i - 1) as nat).push('0') == zeros(i as nat));
    }
    push_decimal(out, n);
    assert(zeros(fill as nat) + decimal(n as nat) == zero_padded(n as nat, width as nat));
}

/// Formats a pairing code for display as `XXXXX-XXXXX`: ten decimal digits,
/// zero-filled, in two groups of five.
pub fn format_sas(value: u32) -> (s: String)
    ensures
        s@ == sas_code(value),
{
    let mut s = String::new();
    push_zero_padded(&mut s, value / 100000, 5);
    s.push('-');
    push_zero_padded(&mut s, value % 100000, 5);
    s
}

/// `10^k`.
pub open spec fn pow10(k: nat) -> nat
    decreases k,
{
    if k == 0 {
        1
    } else {
        10 * pow10((k - 1) as nat)
    }
}

proof fn lemma_decimal_len_at_most(n: nat, w: nat)
    requires
        1 <= w,
        n < pow10(w),
    ensures
        1 <= decimal(n).len() <= w,
    decreases w,
{
    if n >= 10 {
        assert(w >= 2) by {
            if w == 1 {
                assert(pow10(1) == 10) by {
                    assert(pow10(0) == 1);
                }
            }
        }
        assert(pow10(w) == 10 * pow10((w - 1) as nat));
        lemma_decimal_len_at_most(n / 10, (w - 1) as nat);
    }
}

proof fn lemma_decimal_digits(n: nat)
    ensures
        digits_value(decimal(n)) == n,
        forall|k: int| 0 <= k < decimal(n).len() ==> is_digit(#[trigger] decimal(n)[k]),
    decreases n,
{
    assert((digit_char(n % 10) as u32) == 48 + n % 10);
    let d = decimal(n);
    assert(d.last() == digit_char(n % 10));
    if n < 10 {
        assert(d.drop_last() == Seq::<char>::empty());
        assert(digits_value(d) == digits_value(d.drop_last()) * 10 + n % 10);
    } else {
        lemma_decimal_digits(n / 10);
        assert(d.drop_last() == decimal(n / 10));
        assert(digits_value(d) == (n / 10) * 10 + n % 10);
        let d = decimal(n);
        assert forall|k: int| 0 <= k < d.len() implies is_digit(#[trigger] d[k]) by {
            if k < d.len() - 1 {
                assert(d[k] == decimal(n / 10)[k]);
            }
        }
    }
}

proof fn lemma_zeros_value(k: nat, s: Seq<char>)
    ensures
        digits_value(zeros(k) + s) == digits_value(s),
    decreases s.len() + k,
{
    if s.len() == 0 {
        assert(zeros(k) + s == zeros(k));
        if k > 0 {
            assert(zeros(k).drop_last() == zeros((k - 1) as nat));
            lemma_zeros_value((k - 1) as nat, s);
            assert(zeros((k - 1) as nat) + s == zeros((k - 1) as nat));
        }
    } else {
        assert((zeros(k) + s).drop_last() == zeros(k) + s.drop_last());
        lemma_zeros_value(k, s.drop_last());
    }
}

proof fn lemma_zero_padded(n: nat, width: nat)
    requires
        1 <= width,
        n < pow10(width),
    ensures
        zero_padded(n, width).len() == width,
        digits_value(zero_padded(n, width)) == n,
        forall|k: int| 0 <= k < width ==> is_digit(#[trigger] zero_padded(n, width)[k]),
{
    lemma_decimal_len_at_most(n, width);
    lemma_decimal_digits(n);
    let d = decimal(n);
    if d.len() < width {
        let z = zeros((width - d.len()) as nat);
        lemma_zeros_value((width - d.len()) as nat, d);
        assert forall|k: int| 0 <= k < width implies is_digit(#[trigger] zero_padded(n, width)[k]) by {
            if k >= z.len() {
                assert(zero_padded(n, width)[k] == d[k - z.len()]);
            }
        }
    }
}

/// Every code displays as `DDDDD-DDDDD`: five digits, a hyphen and five
/// digits, which read back, as one ten-digit number, as the code.
pub proof fn lemma_sas_code_shape(value: u32)
    ensures
        sas_code(value).len() == 11,
        sas_code(value)[5] == '-',
        forall|k: int| 0 <= k < 11 && k != 5 ==> is_digit(#[trigger] sas_code(value)[k]),
        digits_value(sas_code(value).subrange(0, 5)) * 100000 + digits_value(
            sas_code(value).subrange(6, 11),
        ) == value,
{
    lemma_pow10_5();
    let hi = (value / 100000) as nat;
    let lo = (value % 100000) as nat;
    lemma_zero_padded(hi, 5);
    lemma_zero_padded(lo, 5);
    let c = sas_code(value);
    assert(c.subrange(0, 5) == zero_padded(hi, 5));
    assert(c.subrange(6, 11) == zero_padded(lo, 5));
    assert forall|k: int| 0 <= k < 11 && k != 5 implies is_digit(#[trigger] c[k]) by {
        if k < 5 {
            assert(c[k] == zero_padded(hi, 5)[k]);
        } else {
            assert(c[k] == zero_padded(lo, 5)[k - 6]);
        }
    }
}

proof fn lemma_pow10_5()
    ensures
        pow10(5) == 100000,
{
    assert(pow10(0) == 1);
    assert(pow10(1) == 10);
    assert(pow10(2) == 100);
    assert(pow10(3) == 1000);
    assert(pow10(4) == 10000);
}

/// Different codes are displayed differently.
pub proof fn lemma_sas_code_injective(v: u32, w: u32)
    requires
        sas_code(v) == sas_code(w),
    ensures
        v == w,
{
    lemma_sas_code_shape(v);
    lemma_sas_code_shape(w);
}

} // verus!
