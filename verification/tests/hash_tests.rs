use runtime_core::hash;

#[test]
fn empty_hash_is_sha512_256_of_nothing() {
    let h = hash::Hash::empty_hash();
    let expected: [u8; 32] = [
        0xc6, 0x72, 0xb8, 0xd1, 0xef, 0x56, 0xed, 0x28, 0xab, 0x87, 0xc3, 0x62, 0x2c, 0x51, 0x14, 0x06,
        0x9b, 0xdd, 0x3a, 0xd7, 0xb8, 0xf9, 0x73, 0x74, 0x98, 0xd0, 0xc0, 0x1e, 0xce, 0xf0, 0x96, 0x7a,
    ];
    assert_eq!(h.bytes, expected);
}

#[test]
fn digest_differs_from_input() {
    let data = [7u8; 32];
    let h = hash::Hash::digest_bytes(&data);
    assert_ne!(h.bytes, data);
    assert_eq!(h, hash::Hash::digest_bytes(&data));
}

#[test]
fn digest_of_abc_is_the_published_one() {
    let h = hash::Hash::digest_bytes(b"abc");
    let expected: [u8; 32] = [
        0x53, 0x04, 0x8e, 0x26, 0x81, 0x94, 0x1e, 0xf9, 0x9b, 0x2e, 0x29, 0xb7, 0x6b, 0x4c, 0x7d, 0xab,
        0xe4, 0xc2, 0xd0, 0xc6, 0x34, 0xfc, 0x6d, 0x46, 0xe0, 0xe2, 0xf1, 0x31, 0x07, 0xe7, 0xaf, 0x23,
    ];
    assert_eq!(h.bytes, expected);
}
