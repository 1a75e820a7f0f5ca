use nixos_limine::hash::blake2b;
use nixos_limine::text::hex_string;

#[test]
fn matches_b2sum() {
    assert!(blake2b(b"").starts_with("786a02f742015903c6c6fd852552d272"));
    assert!(blake2b(b"abc").starts_with("ba80a53f981c4d0d6a2797b69f12f6e9"));
}

#[test]
fn is_a_512_bit_digest_in_hex() {
    assert_eq!(blake2b(b"anything").len(), 128);
}

#[test]
fn digests_the_whole_input() {
    assert_eq!(
        blake2b(b"abc"),
        "ba80a53f981c4d0d6a2797b69f12f6e94c212f14685ac4b74b12bb6fdbffa2d17d87c5392aab792dc252d5de4533cc9518d38aa8dbf1925ab92386edd4009923"
    );
    assert_ne!(blake2b(b"abc"), blake2b(b"abd"));
}

#[test]
fn spells_bytes_as_two_lowercase_hex_digits() {
    assert_eq!(hex_string(&[0x00, 0x0f, 0xab, 0xff]), "000fabff");
    assert_eq!(hex_string(&[]), "");
}
