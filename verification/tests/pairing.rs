use bluewren::pairing::{
    bytes_le, compute_sas, format_sas, random_nonce, sas_from_digest, sas_transcript, NONCE_LEN,
    SAS_BITS,
};

const EXPORTED: [u8; 32] = [0x55; 32];

#[test]
fn nonce_generation_produces_unique_values() {
    let n1 = random_nonce();
    let n2 = random_nonce();
    assert_ne!(n1, n2);
    assert_ne!(n1, [0u8; NONCE_LEN]);
}

#[test]
fn sas_is_symmetric() {
    let id_a = [1u8; 32];
    let id_b = [2u8; 32];
    let nonce_a = [10u8; NONCE_LEN];
    let nonce_b = [20u8; NONCE_LEN];
    let alpn = b"/bluewren/0.2";

    let sas_from_a = compute_sas(&id_a, &id_b, alpn, &nonce_a, &nonce_b, &EXPORTED);
    let sas_from_b = compute_sas(&id_b, &id_a, alpn, &nonce_b, &nonce_a, &EXPORTED);
    assert_eq!(sas_from_a, sas_from_b);
}

#[test]
fn sas_differs_for_different_peers() {
    let id_a = [1u8; 32];
    let id_b = [2u8; 32];
    let id_c = [3u8; 32];
    let nonce_a = [10u8; NONCE_LEN];
    let nonce_b = [20u8; NONCE_LEN];
    let alpn = b"/bluewren/0.2";

    let legit = compute_sas(&id_a, &id_b, alpn, &nonce_a, &nonce_b, &EXPORTED);
    let mitm = compute_sas(&id_a, &id_c, alpn, &nonce_a, &nonce_b, &EXPORTED);
    assert_ne!(legit, mitm);
}

#[test]
fn sas_uses_nonces_for_replay_resistance() {
    let id_a = [1u8; 32];
    let id_b = [2u8; 32];
    let nonce_a1 = [10u8; NONCE_LEN];
    let nonce_a2 = [11u8; NONCE_LEN];
    let nonce_b = [20u8; NONCE_LEN];
    let alpn = b"/bluewren/0.2";

    let sas1 = compute_sas(&id_a, &id_b, alpn, &nonce_a1, &nonce_b, &EXPORTED);
    let sas2 = compute_sas(&id_a, &id_b, alpn, &nonce_a2, &nonce_b, &EXPORTED);
    assert_ne!(sas1, sas2);
}

#[test]
fn sas_is_within_bit_range() {
    for i in 0..100u32 {
        let id_a = [(i & 0xFF) as u8; 32];
        let id_b = [((i + 1) & 0xFF) as u8; 32];
        let nonce_a = [(i + 2) as u8; NONCE_LEN];
        let nonce_b = [(i + 3) as u8; NONCE_LEN];
        let sas = compute_sas(&id_a, &id_b, b"/test", &nonce_a, &nonce_b, &EXPORTED);
        assert!(sas < (1 << SAS_BITS));
    }
}

#[test]
fn format_sas_produces_seven_digits() {
    assert_eq!(format_sas(0), "00000-00000");
    assert_eq!(format_sas(1_048_575), "00010-48575");
    assert_eq!(format_sas(123_4567 % (1 << SAS_BITS)), "00012-34567");
}

#[test]
fn concatenation_attack_resistance() {
    let alpn = b"/bluewren/0.2";
    let sas1 = compute_sas(b"ab", b"xy", alpn, b"cd", b"ef", &EXPORTED);
    let sas2 = compute_sas(b"abc", b"xy", alpn, b"d", b"ef", &EXPORTED);
    assert_ne!(sas1, sas2);
}

#[test]
fn transcript_layout_is_length_prefixed_and_ordered() {
    let t = sas_transcript(b"zz", b"ab", b"P", b"n1", b"n2", b"TLS");
    let mut expected = b"bluewren-sas-v2\0".to_vec();
    expected.extend_from_slice(&[0, 0, 0, 2, b'a', b'b']);
    expected.extend_from_slice(&[0, 0, 0, 2, b'z', b'z']);
    expected.extend_from_slice(&[0, 0, 0, 1, b'P']);
    expected.extend_from_slice(&[0, 0, 0, 2, b'n', b'2']);
    expected.extend_from_slice(&[0, 0, 0, 2, b'n', b'1']);
    expected.extend_from_slice(&[0, 0, 0, 3, b'T', b'L', b'S']);
    assert_eq!(t, expected);
    assert_eq!(sas_transcript(b"ab", b"zz", b"P", b"n2", b"n1", b"TLS"), expected);
    assert_ne!(
        sas_transcript(b"ab", b"xy", b"P", b"cd", b"ef", b"TLS"),
        sas_transcript(b"abc", b"xy", b"P", b"d", b"ef", b"TLS")
    );
}

#[test]
fn sas_is_the_top_thirty_bits_of_the_blake3_digest() {
    let t = sas_transcript(&[1u8; 32], &[2u8; 32], b"/bluewren/0.2", &[10u8; 16], &[20u8; 16], &EXPORTED);
    let digest = *blake3::hash(&t).as_bytes();
    let expected = u32::from_be_bytes([digest[0], digest[1], digest[2], digest[3]]) >> 2;
    let sas = compute_sas(&[1u8; 32], &[2u8; 32], b"/bluewren/0.2", &[10u8; 16], &[20u8; 16], &EXPORTED);
    assert_eq!(sas, expected);
    assert_eq!(sas, sas_from_digest(&digest));
}

#[test]
fn sas_depends_on_the_tls_session() {
    let a = compute_sas(&[1u8; 32], &[2u8; 32], b"/bluewren/0.2", &[10u8; 16], &[20u8; 16], &[0x55; 32]);
    let b = compute_sas(&[1u8; 32], &[2u8; 32], b"/bluewren/0.2", &[10u8; 16], &[20u8; 16], &[0x56; 32]);
    assert_ne!(a, b);
}

#[test]
fn sas_from_digest_reads_four_bytes() {
    let mut digest = [0u8; 32];
    digest[0] = 0xAB;
    digest[1] = 0xCD;
    digest[2] = 0xEF;
    digest[3] = 0x13;
    digest[4] = 0xFF;
    assert_eq!(sas_from_digest(&digest), 0xABCDEF13 >> 2);
    assert_eq!(sas_from_digest(&[0xFF; 32]), (1 << SAS_BITS) - 1);
    assert_eq!(sas_from_digest(&[0u8; 32]), 0);
}

#[test]
fn lexicographic_order_of_ids() {
    assert!(bytes_le(b"", b""));
    assert!(bytes_le(b"ab", b"abc"));
    assert!(!bytes_le(b"abc", b"ab"));
    assert!(bytes_le(b"abc", b"abd"));
    assert!(!bytes_le(b"b", b"abc"));
    assert!(bytes_le(&[1u8; 32], &[2u8; 32]));
}

#[test]
fn format_sas_of_large_values() {
    assert_eq!(format_sas(100_000), "00001-00000");
    assert_eq!(format_sas((1 << SAS_BITS) - 1), "10737-41823");
    assert_eq!(format_sas(u32::MAX), "42949-67295");
    assert_eq!(format_sas(42), "00000-00042");
    for v in [0u32, 7, 99_999, 100_001, 123_456_789, (1 << SAS_BITS) - 1] {
        let s = format_sas(v);
        assert_eq!(s.len(), 11);
        assert_eq!(format!("{}{}", &s[..5], &s[6..]), format!("{:010}", v));
    }
}
