//! 32-bit words as field values: byte limbs, bounded sums and rotations.
//!
//! A field value is held as the non-negative integer below `2^64` that it
//! stands for. Every value of the circuit is a sum of at most four words, so
//! integer arithmetic on these values never wraps, and an identity that
//! holds over the integers holds in every field.

use vstd::arithmetic::div_mod::*;
use vstd::arithmetic::mul::*;
use vstd::arithmetic::power2::*;
use vstd::prelude::*;

verus! {

/// The modulus of word arithmetic, `2^32`.
pub const WORD_MODULUS: u64 = 0x1_0000_0000;

/// The value that four limbs stand for, least significant limb first.
pub open spec fn limbs_value(limbs: Seq<u64>) -> int {
    limbs[0] + limbs[1] * 0x100 + limbs[2] * 0x1_0000 + limbs[3] * 0x100_0000
}

/// Every one of the four limbs is a byte.
pub open spec fn limbs_in_range(limbs: Seq<u64>) -> bool {
    limbs[0] < 0x100 && limbs[1] < 0x100 && limbs[2] < 0x100 && limbs[3] < 0x100
}

/// Limb `i` of `v`: the byte at bit position `8 * i`.
pub open spec fn limb_of(v: u32, i: int) -> int {
    if i == 0 {
        v as int % 0x100
    } else if i == 1 {
        (v as int / 0x100) % 0x100
    } else if i == 2 {
        (v as int / 0x1_0000) % 0x100
    } else {
        (v as int / 0x100_0000) % 0x100
    }
}

/// The four limbs of `v`.
pub open spec fn limbs_of(v: u32) -> Seq<u64> {
    seq![
        limb_of(v, 0) as u64,
        limb_of(v, 1) as u64,
        limb_of(v, 2) as u64,
        limb_of(v, 3) as u64,
    ]
}

/// The top `s` bits of `x`, for `s` in `1..=31`.
pub open spec fn high_part(x: u32, s: u32) -> int {
    x as int / pow2((32 - s) as nat) as int
}

/// The low `32 - s` bits of `x`, for `s` in `1..=31`.
pub open spec fn low_part(x: u32, s: u32) -> int {
    x as int % pow2((32 - s) as nat) as int
}

/// Rotation of a word to the left by `s` bits, for `s` in `1..=31`: the bits
/// that leave at the top come back at the bottom.
pub open spec fn rotl(x: u32, s: u32) -> int {
    (x as int * pow2(s as nat) as int) % 0x1_0000_0000 + x as int / pow2((32 - s) as nat) as int
}

/// `total` reduced to a word.
pub open spec fn word_of(total: int) -> int {
    total % 0x1_0000_0000
}

/// How often `2^32` goes into `total`.
pub open spec fn carry_of(total: int) -> int {
    total / 0x1_0000_0000
}

/// Splits a word into four byte limbs, least significant first.
pub fn u32_to_limbs(v: u32) -> (limbs: [u64; 4])
    ensures
        limbs@ == limbs_of(v),
        limbs_in_range(limbs@),
        limbs_value(limbs@) == v,
{
    let l0: u32 = v % 256;
    let l1: u32 = (v / 256) % 256;
    let l2: u32 = (v / 65536) % 256;
    let l3: u32 = (v / 16777216) % 256;
    let limbs: [u64; 4] = [l0 as u64, l1 as u64, l2 as u64, l3 as u64];
    assert(limbs@ =~= limbs_of(v));
    limbs
}

/// Reassembles a word from four limbs. `None` when a limb is not a byte.
pub fn limbs_to_u32(limbs: &[u64; 4]) -> (word: Option<u32>)
    ensures
        word.is_some() <==> limbs_in_range(limbs@),
        word matches Some(v) ==> v == limbs_value(limbs@),
{
    if limbs[0] < 256 && limbs[1] < 256 && limbs[2] < 256 && limbs[3] < 256 {
        let sum: u64 = limbs[0] + limbs[1] * 0x100 + limbs[2] * 0x1_0000 + limbs[3] * 0x100_0000;
        Some(sum as u32)
    } else {
        None
    }
}

/// The low 32 bits of a field value.
pub fn field_to_u32(f: u64) -> (word: u32)
    ensures
        word == word_of(f as int),
{
    (f % WORD_MODULUS) as u32
}

/// `2^k` as a field value.
pub fn power_of_two(k: u32) -> (p: u64)
    requires
        k < 64,
    ensures
        p == pow2(k as nat),
        k <= 32 ==> 1 <= p <= WORD_MODULUS,
{
    proof {
        vstd::bits::lemma_u64_pow2_no_overflow(k as nat);
        vstd::bits::lemma_u64_shl_is_mul(1, k as u64);
        if k <= 32 {
            lemma_pow2_bounds(k);
        }
    }
    1u64 << k
}

/// Rotates a word to the left by `s` bits.
pub fn rotate_left(x: u32, s: u32) -> (r: u32)
    requires
        1 <= s <= 31,
    ensures
        r == rotl(x, s),
{
    let t: u32 = 32 - s;
    let r: u32 = (x << s) | (x >> t);
    proof {
        let wide: u64 = (x as u64) << s;
        assert(r as u64 == wide % 0x1_0000_0000u64 + ((x >> t) as u64)) by (bit_vector)
            requires
                1 <= s <= 31,
                t == 32 - s,
                r == (x << s) | (x >> t),
                wide == (x as u64) << s,
        ;
        lemma_pow2_bounds(s);
        lemma_pow2_bounds(t);
        lemma_mul_upper_bound(x as int, 0xffff_ffff, pow2(s as nat) as int, 0x1_0000_0000);
        vstd::bits::lemma_u64_shl_is_mul(x as u64, s as u64);
        vstd::bits::lemma_u32_shr_is_div(x, t);
    }
    r
}

/// A word cut at a bit boundary.
pub struct Split {
    /// The bits above the boundary.
    pub high: u32,
    /// The bits below the boundary.
    pub low: u32,
}

/// Cuts `x` below its top `s` bits, so that the two parts can trade places.
pub fn split_at(x: u32, s: u32) -> (parts: Split)
    requires
        1 <= s <= 31,
    ensures
        parts.high == high_part(x, s),
        parts.low == low_part(x, s),
        parts.high < pow2(s as nat),
        parts.low < pow2((32 - s) as nat),
        x == parts.high * pow2((32 - s) as nat) + parts.low,
        rotl(x, s) == parts.low * pow2(s as nat) + parts.high,
{
    let t: u32 = 32 - s;
    proof {
        lemma_pow2_bounds(t);
        vstd::bits::lemma_u32_shl_is_mul(1, t);
        vstd::bits::lemma_u32_shr_is_div(x, t);
        lemma_rotation_split(x, s);
    }
    let boundary: u32 = 1u32 << t;
    Split { high: x >> t, low: x % boundary }
}

/// The carry of a bounded sum: how often `2^32` goes into what `total` has
/// above `word`. Where `word` is `total` reduced to a word, this is how
/// often `2^32` was dropped on the way.
pub fn carry_between(total: u64, word: u32) -> (carry: u64)
    requires
        word <= total,
    ensures
        carry == (total - word) / 0x1_0000_0000,
        word == word_of(total as int) ==> carry == carry_of(total as int) && word + carry
            * WORD_MODULUS == total,
{
    let gap: u64 = total - word as u64;
    assert(gap >> 32 == gap / 0x1_0000_0000u64) by (bit_vector);
    gap >> 32
}

/// `2^k` for `k` up to 32 lies between 1 and `2^32`.
pub proof fn lemma_pow2_bounds(k: u32)
    requires
        k <= 32,
    ensures
        1 <= pow2(k as nat) <= 0x1_0000_0000,
        k <= 31 ==> pow2(k as nat) <= 0x8000_0000,
{
    lemma_pow2_pos(k as nat);
    lemma2_to64();
    if k < 31 {
        lemma_pow2_strictly_increases(k as nat, 31);
    }
}

/// The variable-boundary rotation identity. A word cut below its top `s` bits
/// is `high * 2^(32 - s) + low`; swapping the two parts gives the word
/// rotated by `s`, and neither part nor the swapped sum leaves its range.
pub proof fn lemma_rotation_split(x: u32, s: u32)
    requires
        1 <= s <= 31,
    ensures
        0 <= high_part(x, s) < pow2(s as nat),
        0 <= low_part(x, s) < pow2((32 - s) as nat),
        x == high_part(x, s) * pow2((32 - s) as nat) + low_part(x, s),
        rotl(x, s) == low_part(x, s) * pow2(s as nat) + high_part(x, s),
        0 <= rotl(x, s) < 0x1_0000_0000,
{
    let t: u32 = (32 - s) as u32;
    let ps: int = pow2(s as nat) as int;
    let pt: int = pow2(t as nat) as int;
    let high: int = high_part(x, s);
    let low: int = low_part(x, s);
    lemma_pow2_bounds(s);
    lemma_pow2_bounds(t);
    lemma_pow2_adds(s as nat, t as nat);
    lemma2_to64();
    assert(ps * pt == 0x1_0000_0000);
    lemma_fundamental_div_mod(x as int, pt);
    lemma_mul_is_commutative(pt, high);
    assert(x == high * pt + low);
    assert(0 <= high) by {
        lemma_div_pos_is_pos(x as int, pt);
    }
    assert(high < ps) by (nonlinear_arith)
        requires
            x == high * pt + low,
            0 <= low,
            x < 0x1_0000_0000,
            ps * pt == 0x1_0000_0000,
            pt > 0,
    ;
    lemma_rotation_unique(x as int, high, low, s);
}

/// The rotation identity at the two ends of the range of rotation amounts.
/// For a rotation by 1 the high part is one bit and the low part 31 bits;
/// for a rotation by 31 it is the other way round. Either way the parts
/// recombine to the word, swapped they give the rotated word, and nothing
/// leaves 32 bits.
pub proof fn lemma_rotation_boundaries(x: u32)
    ensures
        0 <= high_part(x, 1) < 2,
        0 <= low_part(x, 1) < 0x8000_0000,
        x == high_part(x, 1) * 0x8000_0000 + low_part(x, 1),
        rotl(x, 1) == low_part(x, 1) * 2 + high_part(x, 1),
        0 <= rotl(x, 1) < 0x1_0000_0000,
        0 <= high_part(x, 31) < 0x8000_0000,
        0 <= low_part(x, 31) < 2,
        x == high_part(x, 31) * 2 + low_part(x, 31),
        rotl(x, 31) == low_part(x, 31) * 0x8000_0000 + high_part(x, 31),
        0 <= rotl(x, 31) < 0x1_0000_0000,
{
    lemma2_to64();
    lemma_rotation_split(x, 1);
    lemma_rotation_split(x, 31);
}

/// The rotation check pins the rotated word: whenever `high` and `low` are
/// in range and recombine to `w`, the swapped sum `low * 2^s + high` is `w`
/// rotated by `s`.
pub proof fn lemma_rotation_unique(w: int, high: int, low: int, s: u32)
    requires
        1 <= s <= 31,
        0 <= w < 0x1_0000_0000,
        0 <= high < pow2(s as nat),
        0 <= low < pow2((32 - s) as nat),
        w == high * pow2((32 - s) as nat) + low,
    ensures
        high == high_part(w as u32, s),
        low == low_part(w as u32, s),
        low * pow2(s as nat) + high == rotl(w as u32, s),
        0 <= low * pow2(s as nat) + high < 0x1_0000_0000,
{
    let t: u32 = (32 - s) as u32;
    let ps: int = pow2(s as nat) as int;
    let pt: int = pow2(t as nat) as int;
    lemma_pow2_bounds(s);
    lemma_pow2_bounds(t);
    lemma_pow2_adds(s as nat, t as nat);
    lemma2_to64();
    assert(ps * pt == 0x1_0000_0000);
    lemma_mul_is_commutative(high, pt);
    lemma_fundamental_div_mod_converse(w, pt, high, low);
    assert(w * ps == high * 0x1_0000_0000 + low * ps) by (nonlinear_arith)
        requires
            w == high * pt + low,
            ps * pt == 0x1_0000_0000,
    ;
    assert(0 <= low * ps < 0x1_0000_0000 && low * ps + high < 0x1_0000_0000) by (nonlinear_arith)
        requires
            0 <= low < pt,
            0 <= high < ps,
            ps * pt == 0x1_0000_0000,
            ps > 0,
    ;
    lemma_mul_is_commutative(high, 0x1_0000_0000);
    lemma_fundamental_div_mod_converse(w * ps, 0x1_0000_0000, high, low * ps);
}

/// The bounded-sum check pins word and carry: a word below `2^32` and an
/// integer carry that recombine to `total` are its remainder and quotient.
pub proof fn lemma_bounded_sum_unique(word: int, carry: int, total: int)
    requires
        0 <= word < 0x1_0000_0000,
        word + carry * 0x1_0000_0000 == total,
    ensures
        word == word_of(total),
        carry == carry_of(total),
{
    lemma_fundamental_div_mod_converse(total, 0x1_0000_0000, carry, word);
}

/// Limb decomposition loses nothing: the limbs of a word are bytes, and
/// reassembling them gives the word back.
pub proof fn lemma_limbs_round_trip(v: u32)
    ensures
        limbs_in_range(limbs_of(v)),
        limbs_value(limbs_of(v)) == v,
{
}

} // verus!
