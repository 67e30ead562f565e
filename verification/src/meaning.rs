//! What the equations prove.
//!
//! The equations are linear identities between field values. They pin a
//! word only together with range checks on the words and carries involved;
//! those checks are not among the equations, and the surrounding circuit
//! owes them. Given the ranges, a window that meets the equations of a round
//! step holds the words of that step, and a window that meets the equations
//! of the final merge holds the merged words. The output of the mixing
//! function is taken as its limbs give it: the equations do not tie it to
//! the words that were mixed.

use crate::config::{compress_equations, round_equations, RMD160Config};
use crate::table::Table;
use crate::word::{
    carry_of, lemma_bounded_sum_unique, lemma_rotation_unique, rotl, word_of,
};
use vstd::arithmetic::power2::{lemma2_to64, pow2};
use vstd::prelude::*;

verus! {

/// The ranges that the equations of a round step rely on: the two reduced
/// sums are words, the two fixed cells are the powers of two that belong to
/// the rotation amount `shift`, and the parts of both cuts fit below their
/// boundaries.
pub open spec fn round_ranges(config: RMD160Config, table: Table, row: int, shift: u32) -> bool {
    let w0 = config.adv(table, row, 0, 1);
    let w1h = config.adv(table, row, 5, 1);
    let w1l = config.adv(table, row, 5, 2);
    let a_next = config.adv(table, row, 5, 3);
    let w4h = config.adv(table, row, 6, 1);
    let w4l = config.adv(table, row, 6, 2);
    &&& 1 <= shift <= 31
    &&& config.fix(table, row, 1) == pow2(shift as nat)
    &&& config.fix(table, row, 2) == pow2((32 - shift) as nat)
    &&& 0 <= w0 < 0x1_0000_0000
    &&& 0 <= a_next < 0x1_0000_0000
    &&& 0 <= w1h < pow2(shift as nat)
    &&& 0 <= w1l < pow2((32 - shift) as nat)
    &&& 0 <= w4h < 0x400
    &&& 0 <= w4l < 0x40_0000
}

/// The ranges that the equations of the final merge rely on: the merged
/// words are words.
pub open spec fn compress_ranges(config: RMD160Config, table: Table, row: int) -> bool {
    forall|o: int| 0 <= o < 5 ==> 0 <= #[trigger] config.adv(table, row, 5, o) < 0x1_0000_0000
}

/// A window that meets the equations of a round step within its ranges
/// holds the step: `w0` is `a + r + x + offset` reduced to a word and `wc`
/// its carry, `w1` is `w0` rotated by the rotation amount, `a_next` is
/// `w1 + e` reduced to a word and `w2c` its carry, `c_next` is `c` rotated
/// by 10, and `b`, `c` and `d` are what their limbs stand for.
pub proof fn lemma_round_meaning(config: RMD160Config, table: Table, row: int, shift: u32)
    requires
        round_equations(config, table, row),
        round_ranges(config, table, row, shift),
    ensures
        ({
            let a = config.adv(table, row, 0, 0);
            let w0 = config.adv(table, row, 0, 1);
            let wc = config.adv(table, row, 0, 3);
            let w1 = config.adv(table, row, 0, 4);
            let c = config.adv(table, row, 2, 0);
            let x = config.adv(table, row, 4, 0);
            let r = config.limbs(table, row, 4);
            let e = config.adv(table, row, 5, 0);
            let a_next = config.adv(table, row, 5, 3);
            let c_next = config.adv(table, row, 6, 0);
            let w2c = config.adv(table, row, 6, 4);
            let offset = config.fix(table, row, 0);
            &&& w0 == word_of(a + r + x + offset)
            &&& wc == carry_of(a + r + x + offset)
            &&& w1 == rotl(w0 as u32, shift)
            &&& a_next == word_of(w1 + e)
            &&& w2c == carry_of(w1 + e)
            &&& 0 <= c < 0x1_0000_0000
            &&& c_next == rotl(c as u32, 10)
            &&& config.adv(table, row, 1, 0) == config.limbs(table, row, 1)
            &&& c == config.limbs(table, row, 2)
            &&& config.adv(table, row, 3, 0) == config.limbs(table, row, 3)
        }),
{
    let a = config.adv(table, row, 0, 0);
    let w0 = config.adv(table, row, 0, 1);
    let wc = config.adv(table, row, 0, 3);
    let w1 = config.adv(table, row, 0, 4);
    let c = config.adv(table, row, 2, 0);
    let x = config.adv(table, row, 4, 0);
    let r = config.limbs(table, row, 4);
    let e = config.adv(table, row, 5, 0);
    let w1h = config.adv(table, row, 5, 1);
    let w1l = config.adv(table, row, 5, 2);
    let a_next = config.adv(table, row, 5, 3);
    let w4h = config.adv(table, row, 6, 1);
    let w4l = config.adv(table, row, 6, 2);
    let w2c = config.adv(table, row, 6, 4);
    let offset = config.fix(table, row, 0);
    lemma2_to64();
    lemma_bounded_sum_unique(w0, wc, a + r + x + offset);
    lemma_rotation_unique(w0, w1h, w1l, shift);
    lemma_bounded_sum_unique(a_next, w2c, w1 + e);
    assert(pow2(22) == 0x40_0000 && pow2(10) == 0x400) by {
        lemma2_to64();
    }
    assert(0 <= c < 0x1_0000_0000);
    lemma_rotation_unique(c, w4h, w4l, 10);
}

/// A window that meets the equations of the final merge within its ranges
/// holds the merge: the merged word of row `i` is the sum of the three words
/// of the row, reduced to a word, and its carry is the carry of that sum.
pub proof fn lemma_compress_meaning(config: RMD160Config, table: Table, row: int, i: int)
    requires
        0 <= i < 5,
        compress_equations(config, table, row),
        compress_ranges(config, table, row),
    ensures
        config.adv(table, row, 5, (i + 4) % 5) == word_of(
            config.adv(table, row, 0, i) + config.adv(table, row, 1, i) + config.adv(
                table,
                row,
                2,
                i,
            ),
        ),
        config.adv(table, row, 4, i) == carry_of(
            config.adv(table, row, 0, i) + config.adv(table, row, 1, i) + config.adv(
                table,
                row,
                2,
                i,
            ),
        ),
{
    let merged = config.adv(table, row, 5, (i + 4) % 5);
    let carry = config.adv(table, row, 4, i);
    let sum = config.adv(table, row, 0, i) + config.adv(table, row, 1, i) + config.adv(
        table,
        row,
        2,
        i,
    );
    assert(crate::config::merge_row(config, table, row, i));
    lemma_bounded_sum_unique(merged, carry, sum);
}

} // verus!
