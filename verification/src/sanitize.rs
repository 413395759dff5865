//! Turning received text into something that is safe to print on a terminal.
//!
//! A peer could embed ANSI escape sequences (CSI, OSC, ...) or other control
//! characters in a message to clear the screen, move the cursor, rewrite the
//! window title or write to the clipboard.  Before display every message goes
//! through [`sanitize_for_terminal`]:
//!
//! - `\n`, `\r` and `\t` are kept;
//! - an escape sequence introduced by ESC (0x1B) is dropped as a whole;
//! - every other C0/C1 control character becomes U+FFFD.
use vstd::prelude::*;
use std::str::Chars;
use vstd::std_specs::iter::IteratorSpec;

verus! {

broadcast use vstd::string::group_string_axioms;

/// The escape character that introduces terminal control sequences.
pub const ESC: char = '\x1b';

/// The character shown in place of a control character.
pub const REPLACEMENT: char = '\u{FFFD}';

/// `char::is_control`: the Unicode general category Cc, that is the C0 block
/// U+0000..=U+001F and the C1 block U+007F..=U+009F.
pub open spec fn is_control_char(c: char) -> bool {
    (c as u32) <= 0x1f || (0x7f <= (c as u32) && (c as u32) <= 0x9f)
}

/// `char::is_control` (std): true exactly for the characters of Unicode's general
/// category Cc.  That category is fixed by Unicode as U+0000..=U+001F and
/// U+007F..=U+009F, which is what this specification states.
pub assume_specification[ char::is_control ](c: char) -> (r: bool)
    ensures
        r == is_control_char(c),
;

/// `String::with_capacity` (std): returns an empty string; the capacity is a
/// performance hint only.
pub assume_specification[ String::with_capacity ](capacity: usize) -> (r: String)
    ensures
        r@ == Seq::<char>::empty(),
;

/// `String::push` (std): appends one character at the end of the string.
pub assume_specification[ String::push ](s: &mut String, ch: char)
    ensures
        final(s)@ == old(s)@.push(ch),
;

/// Characters that are shown as they are although they are control characters.
pub open spec fn is_layout_char(c: char) -> bool {
    c == '\n' || c == '\r' || c == '\t'
}

/// The byte range 0x40..=0x7E ends a CSI sequence (`ESC [ ... final`).
pub open spec fn is_csi_final(c: char) -> bool {
    0x40 <= (c as u32) && (c as u32) <= 0x7e
}

/// Index just past the end of a CSI body that starts at `k`: past the first
/// final character, or the end of the text if there is none.
pub open spec fn csi_end(s: Seq<char>, k: nat) -> nat
    decreases s.len() - k,
{
    if k >= s.len() {
        s.len()
    } else if is_csi_final(s[k as int]) {
        k + 1
    } else {
        csi_end(s, k + 1)
    }
}

/// Index just past the end of an OSC body that starts at `k`, where `prev` is
/// the character read before position `k`: an OSC ends with BEL (0x07) or with
/// the string terminator `ESC \`.  The end of the text ends it too.
pub open spec fn osc_end(s: Seq<char>, k: nat, prev: char) -> nat
    decreases s.len() - k,
{
    if k >= s.len() {
        s.len()
    } else if s[k as int] == '\x07' || (prev == ESC && s[k as int] == '\\') {
        k + 1
    } else {
        osc_end(s, k + 1, s[k as int])
    }
}

/// Index just past the escape sequence whose ESC stands right before `k`.
/// `ESC [` opens a CSI and `ESC ]` an OSC; any other character after ESC is a
/// one-character sequence.  An ESC at the very end consumes nothing more.
pub open spec fn escape_end(s: Seq<char>, k: nat) -> nat {
    if k >= s.len() {
        s.len()
    } else if s[k as int] == '[' {
        csi_end(s, k + 1)
    } else if s[k as int] == ']' {
        osc_end(s, k + 1, '\0')
    } else {
        k + 1
    }
}

pub proof fn lemma_csi_end_bounds(s: Seq<char>, k: nat)
    requires
        k <= s.len(),
    ensures
        k <= csi_end(s, k) <= s.len(),
    decreases s.len() - k,
{
    if k < s.len() && !is_csi_final(s[k as int]) {
        lemma_csi_end_bounds(s, k + 1);
    }
}

pub proof fn lemma_osc_end_bounds(s: Seq<char>, k: nat, prev: char)
    requires
        k <= s.len(),
    ensures
        k <= osc_end(s, k, prev) <= s.len(),
    decreases s.len() - k,
{
    if k < s.len() && !(s[k as int] == '\x07' || (prev == ESC && s[k as int] == '\\')) {
        lemma_osc_end_bounds(s, k + 1, s[k as int]);
    }
}

/// An escape sequence never ends before the character that follows ESC, and
/// never past the end of the text.
pub proof fn lemma_escape_end_bounds(s: Seq<char>, k: nat)
    requires
        k <= s.len(),
    ensures
        k <= escape_end(s, k) <= s.len(),
        k < s.len() ==> k < escape_end(s, k),
{
    if k < s.len() {
        if s[k as int] == '[' {
            lemma_csi_end_bounds(s, k + 1);
        } else if s[k as int] == ']' {
            lemma_osc_end_bounds(s, k + 1, '\0');
        }
    }
}

/// The sanitized form of `s` from position `i` on.
pub open spec fn sanitized_from(s: Seq<char>, i: nat) -> Seq<char>
    decreases s.len() - i,
{
    if i >= s.len() {
        Seq::empty()
    } else {
        let c = s[i as int];
        if is_layout_char(c) {
            seq![c] + sanitized_from(s, i + 1)
        } else if c == ESC {
            proof {
                lemma_escape_end_bounds(s, i + 1);
            }
            sanitized_from(s, escape_end(s, i + 1))
        } else if is_control_char(c) {
            seq![REPLACEMENT] + sanitized_from(s, i + 1)
        } else {
            seq![c] + sanitized_from(s, i + 1)
        }
    }
}

/// The text that [`sanitize_for_terminal`] makes of `s`.
pub open spec fn sanitized(s: Seq<char>) -> Seq<char> {
    sanitized_from(s, 0)
}

/// A character that may reach the terminal: no control character but
/// newline, carriage return and tab.
pub open spec fn is_terminal_safe(c: char) -> bool {
    is_layout_char(c) || !is_control_char(c)
}

/// Converts received text into a form that is safe to print.
///
/// `\n`, `\r` and `\t` are kept, escape sequences (CSI, OSC and the short ones)
/// are dropped, and any other control character becomes U+FFFD.
pub fn sanitize_for_terminal(input: &str) -> (out: String)
    ensures
        out@ == sanitized(input@),
        forall|k: int| 0 <= k < out@.len() ==> is_terminal_safe(#[trigger] out@[k]),
{
    let mut out = String::with_capacity(input.len());
    let mut chars = input.chars();
    let ghost s = input@;
    let ghost mut i: nat = 0;
    proof {
        assert(s.skip(0) == s);
    }
    loop
        invariant
            i <= s.len(),
            chars.remaining() == s.skip(i as int),
            out@ + sanitized_from(s, i) == sanitized(s),
        ensures
            out@ == sanitized(s),
        decreases s.len() - i,
    {
        let ghost before = chars.remaining();
        match chars.next() {
            None => {
                proof {
                    assert(i == s.len());
                    assert(out@ + Seq::<char>::empty() == out@);
                }
                break;
            },
            Some(c) => {
                proof {
                    assert(s[i as int] == c);
                    assert(s.skip(i as int).drop_first() == s.skip((i + 1) as int));
                }
                if c == '\n' || c == '\r' || c == '\t' {
                    proof {
                        assert(out@.push(c) + sanitized_from(s, i + 1) == out@ + sanitized_from(s, i));
                    }
                    out.push(c);
                    proof {
                        i = i + 1;
                    }
                } else if c == ESC {
                    let ghost from = i + 1;
                    consume_escape_sequence(&mut chars, Ghost(s), Ghost(from));
                    proof {
                        lemma_escape_end_bounds(s, from);
                        i = escape_end(s, from);
                    }
                } else if c.is_control() {
                    proof {
                        assert(out@.push(REPLACEMENT) + sanitized_from(s, i + 1) == out@ + sanitized_from(s, i));
                    }
                    out.push(REPLACEMENT);
                    proof {
                        i = i + 1;
                    }
                } else {
                    proof {
                        assert(out@.push(c) + sanitized_from(s, i + 1) == out@ + sanitized_from(s, i));
                    }
                    out.push(c);
                    proof {
                        i = i + 1;
                    }
                }
            },
        }
    }
    proof {
        lemma_sanitized_is_terminal_safe(s, 0);
    }
    out
}

/// Consumes the rest of an escape sequence after its ESC has been read.
///
/// A CSI (`ESC [`) runs up to a final character in 0x40..=0x7E, an OSC
/// (`ESC ]`) up to BEL or `ESC \`; any other character after ESC is a
/// one-character sequence.  This is a practical filter rather than a complete
/// parser: it catches screen clearing, cursor movement, clipboard writes and
/// title changes.
fn consume_escape_sequence(chars: &mut Chars, Ghost(s): Ghost<Seq<char>>, Ghost(k): Ghost<nat>)
    requires
        k <= s.len(),
        (*old(chars)).remaining() == s.skip(k as int),
    ensures
        (*final(chars)).remaining() == s.skip(escape_end(s, k) as int),
{
    let ghost mut j: nat = k;
    let next = match chars.next() {
        Some(c) => c,
        None => {
            return;
        },
    };
    proof {
        assert(s[k as int] == next);
        assert(s.skip(k as int).drop_first() == s.skip((k + 1) as int));
        j = k + 1;
    }
    if next == '[' {
        loop
            invariant_except_break
                csi_end(s, j) == escape_end(s, k),
            invariant
                k + 1 <= j <= s.len(),
                (*chars).remaining() == s.skip(j as int),
            ensures
                (*chars).remaining() == s.skip(escape_end(s, k) as int),
            decreases s.len() - j,
        {
            match chars.next() {
                None => {
                    return;
                },
                Some(c) => {
                    proof {
                        assert(s[j as int] == c);
                        assert(s.skip(j as int).drop_first() == s.skip((j + 1) as int));
                    }
                    let code = c as u32;
                    if 0x40 <= code && code <= 0x7e {
                        proof {
                            j = j + 1;
                        }
                        break;
                    }
                    proof {
                        j = j + 1;
                    }
                },
            }
        }
    } else if next == ']' {
        let mut prev = '\0';
        loop
            invariant_except_break
                osc_end(s, j, prev) == escape_end(s, k),
            invariant
                k + 1 <= j <= s.len(),
                (*chars).remaining() == s.skip(j as int),
            ensures
                (*chars).remaining() == s.skip(escape_end(s, k) as int),
            decreases s.len() - j,
        {
            match chars.next() {
                None => {
                    return;
                },
                Some(c) => {
                    proof {
                        assert(s[j as int] == c);
                        assert(s.skip(j as int).drop_first() == s.skip((j + 1) as int));
                    }
                    if c == '\x07' || (prev == ESC && c == '\\') {
                        proof {
                            j = j + 1;
                        }
                        break;
                    }
                    prev = c;
                    proof {
                        j = j + 1;
                    }
                },
            }
        }
    }
}

/// Nothing that reaches the terminal is a control character, apart from
/// newline, carriage return and tab.
pub proof fn lemma_sanitized_is_terminal_safe(s: Seq<char>, i: nat)
    ensures
        forall|k: int|
            0 <= k < sanitized_from(s, i).len() ==> is_terminal_safe(#[trigger] sanitized_from(s, i)[k]),
    decreases s.len() - i,
{
    if i < s.len() {
        let c = s[i as int];
        if c == ESC {
            lemma_escape_end_bounds(s, i + 1);
            lemma_sanitized_is_terminal_safe(s, escape_end(s, i + 1));
            assert(sanitized_from(s, i) == sanitized_from(s, escape_end(s, i + 1)));
        } else {
            lemma_sanitized_is_terminal_safe(s, i + 1);
            let rest = sanitized_from(s, i + 1);
            assert forall|k: int| 0 <= k < sanitized_from(s, i).len() implies is_terminal_safe(
                #[trigger] sanitized_from(s, i)[k],
            ) by {
                if k > 0 {
                    assert(sanitized_from(s, i)[k] == rest[k - 1]);
                }
            }
        }
    }
}

/// Text in which every character may already reach the terminal comes out of
/// [`sanitize_for_terminal`] unchanged.
pub proof fn lemma_safe_text_unchanged(s: Seq<char>)
    requires
        forall|k: int| 0 <= k < s.len() ==> is_terminal_safe(#[trigger] s[k]),
    ensures
        sanitized(s) == s,
{
    lemma_safe_suffix_unchanged(s, 0);
    assert(s.skip(0) == s);
}

proof fn lemma_safe_suffix_unchanged(s: Seq<char>, i: nat)
    requires
        i <= s.len(),
        forall|k: int| 0 <= k < s.len() ==> is_terminal_safe(#[trigger] s[k]),
    ensures
        sanitized_from(s, i) == s.skip(i as int),
    decreases s.len() - i,
{
    if i < s.len() {
        lemma_safe_suffix_unchanged(s, i + 1);
        assert(is_terminal_safe(s[i as int]));
        assert(seq![s[i as int]] + s.skip((i + 1) as int) == s.skip(i as int));
    } else {
        assert(s.skip(i as int) == Seq::<char>::empty());
    }
}

/// Sanitizing twice gives the same text as sanitizing once.
pub proof fn lemma_sanitize_idempotent(s: Seq<char>)
    ensures
        sanitized(sanitized(s)) == sanitized(s),
{
    lemma_sanitized_is_terminal_safe(s, 0);
    lemma_safe_text_unchanged(sanitized(s));
}


proof fn lemma_csi_end_shift(s: Seq<char>, i: nat, k: nat)
    requires
        i <= k <= s.len(),
    ensures
        csi_end(s, k) == i + csi_end(s.skip(i as int), (k - i) as nat),
    decreases s.len() - k,
{
    let t = s.skip(i as int);
    if k < s.len() {
        assert(t[(k - i) as int] == s[k as int]);
        if !is_csi_final(s[k as int]) {
            lemma_csi_end_shift(s, i, k + 1);
        }
    }
}

proof fn lemma_osc_end_shift(s: Seq<char>, i: nat, k: nat, prev: char)
    requires
        i <= k <= s.len(),
    ensures
        osc_end(s, k, prev) == i + osc_end(s.skip(i as int), (k - i) as nat, prev),
    decreases s.len() - k,
{
    let t = s.skip(i as int);
    if k < s.len() {
        assert(t[(k - i) as int] == s[k as int]);
        if !(s[k as int] == '\x07' || (prev == ESC && s[k as int] == '\\')) {
            lemma_osc_end_shift(s, i, k + 1, s[k as int]);
        }
    }
}

proof fn lemma_escape_end_shift(s: Seq<char>, i: nat, k: nat)
    requires
        i <= k <= s.len(),
    ensures
        escape_end(s, k) == i + escape_end(s.skip(i as int), (k - i) as nat),
{
    let t = s.skip(i as int);
    if k < s.len() {
        assert(t[(k - i) as int] == s[k as int]);
        if s[k as int] == '[' {
            lemma_csi_end_shift(s, i, k + 1);
        } else if s[k as int] == ']' {
            lemma_osc_end_shift(s, i, k + 1, '\0');
        }
    }
}

/// Sanitizing from position `j` depends only on the text from position `i`
/// on, for any `i <= j`.
proof fn lemma_sanitized_from_shift(s: Seq<char>, i: nat, j: nat)
    requires
        i <= j <= s.len(),
    ensures
        sanitized_from(s, j) == sanitized_from(s.skip(i as int), (j - i) as nat),
    decreases s.len() - j,
{
    let t = s.skip(i as int);
    if j < s.len() {
        let c = s[j as int];
        assert(t[(j - i) as int] == c);
        if c == ESC {
            lemma_escape_end_bounds(s, j + 1);
            lemma_escape_end_shift(s, i, j + 1);
            lemma_sanitized_from_shift(s, i, escape_end(s, j + 1));
        } else {
            lemma_sanitized_from_shift(s, i, j + 1);
        }
    }
}

proof fn lemma_sanitized_suffix(s: Seq<char>, i: nat)
    requires
        i <= s.len(),
    ensures
        sanitized_from(s, i) == sanitized(s.skip(i as int)),
{
    lemma_sanitized_from_shift(s, i, i);
}

proof fn lemma_concat_from(p: Seq<char>, q: Seq<char>, j: nat)
    requires
        j <= p.len(),
        forall|k: int| 0 <= k < p.len() ==> p[k] != ESC,
    ensures
        sanitized_from(p + q, j) == sanitized_from(p, j) + sanitized(q),
    decreases p.len() - j,
{
    let s = p + q;
    if j < p.len() {
        lemma_concat_from(p, q, j + 1);
        let c = p[j as int];
        assert(s[j as int] == c);
        let head = if is_layout_char(c) || !is_control_char(c) {
            seq![c]
        } else {
            seq![REPLACEMENT]
        };
        assert(sanitized_from(s, j) == head + sanitized_from(s, j + 1));
        assert(sanitized_from(p, j) == head + sanitized_from(p, j + 1));
        assert(head + (sanitized_from(p, j + 1) + sanitized(q)) == (head + sanitized_from(p, j
            + 1)) + sanitized(q));
    } else {
        lemma_sanitized_suffix(s, j);
        assert(s.skip(j as int) == q);
        assert(sanitized_from(p, j) + sanitized(q) == sanitized(q));
    }
}

/// Text without an ESC in it never starts an escape sequence, so whatever
/// follows it is sanitized as if it stood alone.
pub proof fn lemma_sanitize_concat(p: Seq<char>, q: Seq<char>)
    requires
        forall|k: int| 0 <= k < p.len() ==> p[k] != ESC,
    ensures
        sanitized(p + q) == sanitized(p) + sanitized(q),
{
    lemma_concat_from(p, q, 0);
}

proof fn lemma_csi_end_at(s: Seq<char>, k: nat, e: nat)
    requires
        k <= e < s.len(),
        forall|j: int| k <= j < e ==> !(0x40 <= (#[trigger] s[j] as u32) && (s[j] as u32) <= 0x7e),
        0x40 <= (s[e as int] as u32) && (s[e as int] as u32) <= 0x7e,
    ensures
        csi_end(s, k) == e + 1,
    decreases e - k,
{
    if k < e {
        assert(!is_csi_final(s[k as int]));
        lemma_csi_end_at(s, k + 1, e);
    }
}

proof fn lemma_osc_end_at(s: Seq<char>, k: nat, e: nat, prev: char)
    requires
        k <= e < s.len(),
        prev != ESC,
        forall|j: int| k <= j < e ==> #[trigger] s[j] != '\x07' && s[j] != ESC,
    ensures
        s[e as int] == '\x07' ==> osc_end(s, k, prev) == e + 1,
        (s[e as int] == ESC && e + 1 < s.len() && s[(e + 1) as int] == '\\') ==> osc_end(s, k, prev) == e
            + 2,
    decreases e - k,
{
    if k < e {
        assert(s[k as int] != '\x07' && s[k as int] != ESC);
        lemma_osc_end_at(s, k + 1, e, s[k as int]);
    } else if s[e as int] == ESC && e + 1 < s.len() && s[(e + 1) as int] == '\\' {
        assert(osc_end(s, e, prev) == osc_end(s, e + 1, ESC));
    }
}

/// After ESC, any character other than `[` and `]` forms a one-character
/// sequence: exactly that character is dropped with the ESC, and the text after
/// it is shown as it would be on its own.
pub proof fn lemma_one_char_escape_dropped(p: Seq<char>, c: char, q: Seq<char>)
    requires
        forall|k: int| 0 <= k < p.len() ==> p[k] != ESC,
        c != '[',
        c != ']',
    ensures
        sanitized(p + seq![ESC, c] + q) == sanitized(p) + sanitized(q),
{
    let u = seq![ESC, c] + q;
    assert(p + seq![ESC, c] + q == p + u);
    lemma_sanitize_concat(p, u);
    assert(u[0] == ESC && u[1] == c);
    assert(escape_end(u, 1) == 2);
    lemma_sanitized_suffix(u, 2);
    assert(u.skip(2) == q);
}

/// A CSI (`ESC [`) runs up to and including the first character in
/// 0x40..=0x7E; parameter and intermediate characters before it (such as
/// `?`, `;` or digits) belong to the sequence and are never shown.
pub proof fn lemma_csi_dropped(p: Seq<char>, params: Seq<char>, f: char, rest: Seq<char>)
    requires
        forall|k: int| 0 <= k < p.len() ==> p[k] != ESC,
        forall|k: int|
            0 <= k < params.len() ==> !(0x40 <= (#[trigger] params[k] as u32) && (params[k] as u32)
                <= 0x7e),
        0x40 <= (f as u32) && (f as u32) <= 0x7e,
    ensures
        sanitized(p + seq![ESC, '['] + params + seq![f] + rest) == sanitized(p) + sanitized(rest),
{
    let u = seq![ESC, '['] + params + seq![f] + rest;
    let n = params.len();
    assert(p + seq![ESC, '['] + params + seq![f] + rest == p + u);
    lemma_sanitize_concat(p, u);
    assert(u[0] == ESC && u[1] == '[');
    assert forall|j: int| 2 <= j < 2 + n implies !(0x40 <= (#[trigger] u[j] as u32) && (u[j] as u32)
        <= 0x7e) by {
        assert(u[j] == params[j - 2]);
    }
    assert(u[(2 + n) as int] == f);
    lemma_csi_end_at(u, 2, 2 + n);
    assert(escape_end(u, 1) == 3 + n);
    lemma_sanitized_suffix(u, 3 + n);
    assert(u.skip((3 + n) as int) == rest);
}

/// An OSC (`ESC ]`) whose body holds neither BEL nor ESC runs up to and
/// including the BEL that ends it, or the string terminator `ESC \`; none of it
/// is shown.
pub proof fn lemma_osc_dropped(
    p: Seq<char>,
    body: Seq<char>,
    terminator: Seq<char>,
    rest: Seq<char>,
)
    requires
        forall|k: int| 0 <= k < p.len() ==> p[k] != ESC,
        forall|k: int| 0 <= k < body.len() ==> #[trigger] body[k] != '\x07' && body[k] != ESC,
        terminator == seq!['\x07'] || terminator == seq![ESC, '\\'],
    ensures
        sanitized(p + seq![ESC, ']'] + body + terminator + rest) == sanitized(p) + sanitized(rest),
{
    let u = seq![ESC, ']'] + body + terminator + rest;
    let n = body.len();
    let m = terminator.len();
    assert(p + seq![ESC, ']'] + body + terminator + rest == p + u);
    lemma_sanitize_concat(p, u);
    assert(u[0] == ESC && u[1] == ']');
    assert forall|j: int| 2 <= j < 2 + n implies #[trigger] u[j] != '\x07' && u[j] != ESC by {
        assert(u[j] == body[j - 2]);
    }
    assert(u[(2 + n) as int] == terminator[0]);
    if m == 2 {
        assert(u[(3 + n) as int] == terminator[1]);
    }
    lemma_osc_end_at(u, 2, 2 + n, '\0');
    assert(escape_end(u, 1) == 2 + n + m);
    lemma_sanitized_suffix(u, 2 + n + m);
    assert(u.skip((2 + n + m) as int) == rest);
}

/// A control character other than newline, carriage return, tab and ESC is
/// shown as U+FFFD, and any other character but ESC is shown as it is; the text
/// around it is unaffected.
pub proof fn lemma_plain_char(p: Seq<char>, c: char, q: Seq<char>)
    requires
        forall|k: int| 0 <= k < p.len() ==> p[k] != ESC,
        c != ESC,
    ensures
        ((c as u32) <= 0x1f || (0x7f <= (c as u32) && (c as u32) <= 0x9f)) && c != '\n' && c
            != '\r' && c != '\t' ==> sanitized(p + seq![c] + q) == sanitized(p) + seq!['\u{FFFD}']
            + sanitized(q),
        !(((c as u32) <= 0x1f || (0x7f <= (c as u32) && (c as u32) <= 0x9f)) && c != '\n' && c
            != '\r' && c != '\t') ==> sanitized(p + seq![c] + q) == sanitized(p) + seq![c]
            + sanitized(q),
{
    let u = seq![c] + q;
    assert(p + seq![c] + q == p + u);
    lemma_sanitize_concat(p, u);
    assert(u[0] == c);
    lemma_sanitized_suffix(u, 1);
    assert(u.skip(1) == q);
    let head = if is_layout_char(c) || !is_control_char(c) {
        seq![c]
    } else {
        seq![REPLACEMENT]
    };
    assert(sanitized(u) == head + sanitized(q));
    assert(sanitized(p) + (head + sanitized(q)) == sanitized(p) + head + sanitized(q));
}

proof fn lemma_csi_end_open(s: Seq<char>, k: nat)
    requires
        k <= s.len(),
        forall|j: int| k <= j < s.len() ==> !(0x40 <= (#[trigger] s[j] as u32) && (s[j] as u32) <= 0x7e),
    ensures
        csi_end(s, k) == s.len(),
    decreases s.len() - k,
{
    if k < s.len() {
        assert(!is_csi_final(s[k as int]));
        lemma_csi_end_open(s, k + 1);
    }
}

proof fn lemma_osc_end_open(s: Seq<char>, k: nat, prev: char)
    requires
        k <= s.len(),
        prev != ESC,
        forall|j: int| k <= j < s.len() ==> #[trigger] s[j] != '\x07' && s[j] != ESC,
    ensures
        osc_end(s, k, prev) == s.len(),
    decreases s.len() - k,
{
    if k < s.len() {
        assert(s[k as int] != '\x07' && s[k as int] != ESC);
        lemma_osc_end_open(s, k + 1, s[k as int]);
    }
}

/// An escape sequence still open at the end of the text hides everything
/// after its ESC: a lone ESC, a CSI without a final character, and an OSC
/// without a terminator.
pub proof fn lemma_open_escape_at_end(p: Seq<char>, body: Seq<char>)
    requires
        forall|k: int| 0 <= k < p.len() ==> p[k] != ESC,
    ensures
        sanitized(p + seq![ESC]) == sanitized(p),
        (forall|k: int|
            0 <= k < body.len() ==> !(0x40 <= (#[trigger] body[k] as u32) && (body[k] as u32)
                <= 0x7e)) ==> sanitized(p + seq![ESC, '['] + body) == sanitized(p),
        (forall|k: int| 0 <= k < body.len() ==> #[trigger] body[k] != '\x07' && body[k] != ESC)
            ==> sanitized(p + seq![ESC, ']'] + body) == sanitized(p),
{
    let e = seq![ESC];
    lemma_sanitize_concat(p, e);
    assert(escape_end(e, 1) == 1);
    assert(sanitized(e) == sanitized_from(e, 1));
    assert(sanitized(p) + Seq::<char>::empty() == sanitized(p));
    let n = body.len();
    let u = seq![ESC, '['] + body;
    assert(p + seq![ESC, '['] + body == p + u);
    lemma_sanitize_concat(p, u);
    assert(u[0] == ESC && u[1] == '[');
    if forall|k: int|
        0 <= k < body.len() ==> !(0x40 <= (#[trigger] body[k] as u32) && (body[k] as u32) <= 0x7e) {
        assert forall|j: int| 2 <= j < u.len() implies !(0x40 <= (#[trigger] u[j] as u32) && (u[j]
            as u32) <= 0x7e) by {
            assert(u[j] == body[j - 2]);
        }
        lemma_csi_end_open(u, 2);
        assert(sanitized(u) == sanitized_from(u, u.len()));
    }
    let v = seq![ESC, ']'] + body;
    assert(p + seq![ESC, ']'] + body == p + v);
    lemma_sanitize_concat(p, v);
    assert(v[0] == ESC && v[1] == ']');
    if forall|k: int| 0 <= k < body.len() ==> #[trigger] body[k] != '\x07' && body[k] != ESC {
        assert forall|j: int| 2 <= j < v.len() implies #[trigger] v[j] != '\x07' && v[j] != ESC by {
            assert(v[j] == body[j - 2]);
        }
        lemma_osc_end_open(v, 2, '\0');
        assert(sanitized(v) == sanitized_from(v, v.len()));
    }
}

} // verus!
