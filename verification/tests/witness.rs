use rmd160_circuit::schedule::H0;
use rmd160_circuit::witness::{get_witnesses, RoundWitness};

#[test]
fn first_step_of_the_left_line() {
    let w = get_witnesses(0, &H0, 1, 11, 0, false);
    assert_eq!(
        w,
        RoundWitness {
            r: 0x67452301,
            w0: 0xce8a4603,
            wb: 0xce8a4603,
            wc: 0,
            w1: 0x52301e74,
            w1_h: 0x674,
            w1_l: 0xa4603,
            a_next: 0x16030064,
            w2b: 0x1_1603_0064,
            w2c: 1,
            w4_h: 0x262,
            w4_l: 0x3adcfe,
            c_next: 0xeb73fa62,
        }
    );
}

#[test]
fn first_step_of_the_right_line() {
    let w = get_witnesses(0, &H0, 6, 8, 0x50a28be6, true);
    assert_eq!(
        w,
        RoundWitness {
            r: 0x10325476,
            w0: 0xc81a0363,
            wb: 0xc81a0363,
            wc: 0,
            w1: 0x1a0363c8,
            w1_h: 0xc8,
            w1_l: 0x1a0363,
            a_next: 0xddd645b8,
            w2b: 0xddd645b8,
            w2c: 0,
            w4_h: 0x262,
            w4_l: 0x3adcfe,
            c_next: 0xeb73fa62,
        }
    );
}

#[test]
fn largest_carries() {
    let w = get_witnesses(3, &[u32::MAX; 5], u32::MAX, 1, u32::MAX, false);
    assert_eq!(
        w,
        RoundWitness {
            r: 0xffffffff,
            w0: 0xfffffffc,
            wb: 0x3_ffff_fffc,
            wc: 3,
            w1: 0xfffffff9,
            w1_h: 1,
            w1_l: 0x7ffffffc,
            a_next: 0xfffffff8,
            w2b: 0x1_ffff_fff8,
            w2c: 1,
            w4_h: 0x3ff,
            w4_l: 0x3fffff,
            c_next: 0xffffffff,
        }
    );
}

#[test]
fn rotation_by_thirty_one() {
    let rol = [0xdeadbeef, 0x01234567, 0x89abcdef, 0xfedcba98, 0x76543210];
    let w = get_witnesses(4, &rol, 0xcafebabe, 31, 0xa953fd4e, false);
    assert_eq!(
        w,
        RoundWitness {
            r: 0x88888888,
            w0: 0xdb88ff83,
            wb: 0x2_db88_ff83,
            wc: 2,
            w1: 0xedc47fc1,
            w1_h: 0x6dc47fc1,
            w1_l: 1,
            a_next: 0x6418b1d1,
            w2b: 0x1_6418_b1d1,
            w2c: 1,
            w4_h: 0x226,
            w4_l: 0x2bcdef,
            c_next: 0xaf37be26,
        }
    );
}

#[test]
fn witness_meets_the_step_for_many_inputs() {
    let mut seed: u32 = 0x2545f491;
    let mut next = move || {
        seed ^= seed << 13;
        seed ^= seed >> 17;
        seed ^= seed << 5;
        seed
    };
    for _ in 0..200 {
        let rol = [next(), next(), next(), next(), next()];
        let x = next();
        let offset = next();
        let shift = 1 + next() % 31;
        let round = (next() % 5) as usize;
        let pround = next() % 2 == 0;
        let w = get_witnesses(round, &rol, x, shift, offset, pround);
        let f = if pround { 4 - round } else { round };
        let (b, c, d) = (rol[1], rol[2], rol[3]);
        let r = match f {
            0 => b ^ c ^ d,
            1 => (b & c) | (!b & d),
            2 => (b | !c) ^ d,
            3 => (b & d) | (c & !d),
            _ => b ^ (c | !d),
        };
        assert_eq!(w.r, r);
        assert_eq!(w.w0, rol[0].wrapping_add(r).wrapping_add(x).wrapping_add(offset));
        assert_eq!(w.w1, w.w0.rotate_left(shift));
        assert_eq!(w.a_next, w.w1.wrapping_add(rol[4]));
        assert_eq!(w.c_next, rol[2].rotate_left(10));
        assert_eq!(w.wb, rol[0] as u64 + r as u64 + x as u64 + offset as u64);
        assert_eq!(w.w0 as u64 + (w.wc << 32), w.wb);
        assert!(w.wc <= 3);
        assert_eq!(w.w2b, w.w1 as u64 + rol[4] as u64);
        assert_eq!(w.a_next as u64 + (w.w2c << 32), w.w2b);
        assert!(w.w2c <= 1);
        assert_eq!(((w.w1_h as u64) << (32 - shift)) + w.w1_l as u64, w.w0 as u64);
        assert_eq!(((w.w1_l as u64) << shift) + w.w1_h as u64, w.w1 as u64);
        assert_eq!(((w.w4_h as u64) << 22) + w.w4_l as u64, rol[2] as u64);
        assert_eq!(((w.w4_l as u64) << 10) + w.w4_h as u64, w.c_next as u64);
    }
}
