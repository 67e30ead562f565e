use rmd160_circuit::word::{
    carry_between, field_to_u32, limbs_to_u32, power_of_two, rotate_left, split_at, u32_to_limbs,
};

#[test]
fn limbs_of_a_word_are_its_bytes() {
    assert_eq!(u32_to_limbs(0x12345678), [0x78, 0x56, 0x34, 0x12]);
    assert_eq!(u32_to_limbs(0), [0, 0, 0, 0]);
    assert_eq!(u32_to_limbs(u32::MAX), [255, 255, 255, 255]);
}

#[test]
fn limbs_round_trip() {
    for v in [0u32, 1, 255, 256, 0x12345678, 0x8000_0000, u32::MAX] {
        let limbs = u32_to_limbs(v);
        assert!(limbs.iter().all(|l| *l < 256));
        assert_eq!(limbs_to_u32(&limbs), Some(v));
    }
}

#[test]
fn limbs_that_are_no_bytes_are_refused() {
    assert_eq!(limbs_to_u32(&[256, 0, 0, 0]), None);
    assert_eq!(limbs_to_u32(&[0, 0, 0, 1 << 40]), None);
    assert_eq!(limbs_to_u32(&[1, 2, 3, 4]), Some(0x04030201));
}

#[test]
fn low_bits_of_a_field_value() {
    assert_eq!(field_to_u32(0x1_2345_6789), 0x2345_6789);
    assert_eq!(field_to_u32(7), 7);
    assert_eq!(field_to_u32(u64::MAX), u32::MAX);
}

#[test]
fn powers_of_two() {
    assert_eq!(power_of_two(0), 1);
    assert_eq!(power_of_two(10), 1024);
    assert_eq!(power_of_two(32), 0x1_0000_0000);
}

#[test]
fn rotation_matches_the_machine() {
    for x in [0u32, 1, 0x8000_0000, 0x12345678, 0xdeadbeef, u32::MAX] {
        for s in 1..32 {
            assert_eq!(rotate_left(x, s), x.rotate_left(s));
        }
    }
    assert_eq!(rotate_left(0x8000_0001, 1), 3);
}

#[test]
fn split_recombines_and_rotates() {
    for x in [0u32, 1, 0x8000_0000, 0x12345678, 0xdeadbeef, u32::MAX] {
        for s in 1..32u32 {
            let parts = split_at(x, s);
            let high = parts.high as u64;
            let low = parts.low as u64;
            assert!(high < (1u64 << s));
            assert!(low < (1u64 << (32 - s)));
            assert_eq!(high * (1u64 << (32 - s)) + low, x as u64);
            assert_eq!(low * (1u64 << s) + high, x.rotate_left(s) as u64);
        }
    }
}

#[test]
fn split_at_the_boundaries() {
    let one = split_at(0xdeadbeef, 1);
    assert_eq!((one.high, one.low), (1, 0x5eadbeef));
    let last = split_at(0xdeadbeef, 31);
    assert_eq!((last.high, last.low), (0x6f56df77, 1));
    let top = split_at(u32::MAX, 1);
    assert_eq!(top.low as u64 * 2 + top.high as u64, u32::MAX as u64);
    let bottom = split_at(u32::MAX, 31);
    assert_eq!(bottom.low as u64 * (1u64 << 31) + bottom.high as u64, u32::MAX as u64);
}

#[test]
fn carry_of_a_bounded_sum() {
    let total: u64 = 0xffff_ffff + 0xffff_ffff + 0xffff_ffff + 0xffff_ffff;
    let word = field_to_u32(total);
    assert_eq!(word, 0xffff_fffc);
    assert_eq!(carry_between(total, word), 3);
    assert_eq!(carry_between(5, 5), 0);
    assert_eq!(carry_between(0x1_0000_0000, 0), 1);
}
