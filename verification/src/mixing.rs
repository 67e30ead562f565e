//! The five boolean mixing functions of RIPEMD-160.

use vstd::prelude::*;

verus! {

/// `x ^ y ^ z`, the mixing function of the first round.
pub open spec fn mix_f(x: u32, y: u32, z: u32) -> u32 {
    x ^ y ^ z
}

/// `(x & y) | (!x & z)`, the mixing function of the second round.
pub open spec fn mix_g(x: u32, y: u32, z: u32) -> u32 {
    (x & y) | (!x & z)
}

/// `(x | !y) ^ z`, the mixing function of the third round.
pub open spec fn mix_h(x: u32, y: u32, z: u32) -> u32 {
    (x | !y) ^ z
}

/// `(x & z) | (y & !z)`, the mixing function of the fourth round.
pub open spec fn mix_i(x: u32, y: u32, z: u32) -> u32 {
    (x & z) | (y & !z)
}

/// `x ^ (y | !z)`, the mixing function of the fifth round.
pub open spec fn mix_j(x: u32, y: u32, z: u32) -> u32 {
    x ^ (y | !z)
}

/// The mixing function with selector `f` in `0..5`, applied to three words.
pub open spec fn mix(f: int, x: u32, y: u32, z: u32) -> u32 {
    if f == 0 {
        mix_f(x, y, z)
    } else if f == 1 {
        mix_g(x, y, z)
    } else if f == 2 {
        mix_h(x, y, z)
    } else if f == 3 {
        mix_i(x, y, z)
    } else {
        mix_j(x, y, z)
    }
}

/// The selector that a line uses in `round`: the left line counts up, the
/// mirrored right line counts down.
pub open spec fn selector_of(round: int, mirrored: bool) -> int {
    if mirrored {
        4 - round
    } else {
        round
    }
}

/// Applies the mixing function with selector `f` to three words.
pub fn atomic(f: usize, x: u32, y: u32, z: u32) -> (r: u32)
    requires
        f < 5,
    ensures
        r == mix(f as int, x, y, z),
{
    if f == 0 {
        x ^ y ^ z
    } else if f == 1 {
        (x & y) | (!x & z)
    } else if f == 2 {
        (x | !y) ^ z
    } else if f == 3 {
        (x & z) | (y & !z)
    } else {
        x ^ (y | !z)
    }
}

} // verus!
