use rmd160_circuit::mixing::atomic;

#[test]
fn mixing_functions_on_known_words() {
    let (x, y, z) = (0x01234567u32, 0x89abcdefu32, 0xfedcba98u32);
    assert_eq!(atomic(0, x, y, z), 0x76543210);
    assert_eq!(atomic(1, x, y, z), 0xffffffff);
    assert_eq!(atomic(2, x, y, z), 0x89abcdef);
    assert_eq!(atomic(3, x, y, z), 0x01234567);
    assert_eq!(atomic(4, x, y, z), 0x88888888);
}

#[test]
fn mixing_functions_bit_by_bit() {
    for bits in 0..8u32 {
        let x = if bits & 4 != 0 { u32::MAX } else { 0 };
        let y = if bits & 2 != 0 { u32::MAX } else { 0 };
        let z = if bits & 1 != 0 { u32::MAX } else { 0 };
        assert_eq!(atomic(0, x, y, z), x ^ y ^ z);
        assert_eq!(atomic(1, x, y, z), (x & y) | (!x & z));
        assert_eq!(atomic(2, x, y, z), (x | !y) ^ z);
        assert_eq!(atomic(3, x, y, z), (x & z) | (y & !z));
        assert_eq!(atomic(4, x, y, z), x ^ (y | !z));
    }
}
