//! The auxiliary values of one round step.

use crate::mixing::{atomic, mix, selector_of};
use crate::word::{
    carry_between, carry_of, high_part, lemma_rotation_split, limb_of, low_part, rotate_left,
    rotl, split_at, word_of,
};
use vstd::arithmetic::power2::{lemma2_to64, pow2};
use vstd::prelude::*;

verus! {

/// Everything a round step writes besides its inputs.
#[derive(Clone, Copy, Debug, PartialEq, Eq, Structural)]
pub struct RoundWitness {
    /// The mixing function applied to `b`, `c` and `d`.
    pub r: u32,
    /// `a + r + x + offset` reduced to a word.
    pub w0: u32,
    /// `a + r + x + offset` as a field value.
    pub wb: u64,
    /// The carry of `wb` over `w0`, between 0 and 3.
    pub wc: u64,
    /// `w0` rotated to the left by the rotation amount.
    pub w1: u32,
    /// The top bits of `w0`, as many as the rotation amount.
    pub w1_h: u32,
    /// The remaining low bits of `w0`.
    pub w1_l: u32,
    /// `w1 + e` reduced to a word.
    pub a_next: u32,
    /// `w1 + e` as a field value.
    pub w2b: u64,
    /// The carry of `w2b` over `a_next`, 0 or 1.
    pub w2c: u64,
    /// The top 10 bits of `c`.
    pub w4_h: u32,
    /// The low 22 bits of `c`.
    pub w4_l: u32,
    /// `c` rotated to the left by 10.
    pub c_next: u32,
}

/// The witness of a round step on state `rol`, message word `x`, rotation
/// amount `shift` and additive constant `offset`.
pub open spec fn round_witness(
    round: int,
    rol: Seq<u32>,
    x: u32,
    shift: u32,
    offset: u32,
    pround: bool,
) -> RoundWitness {
    let r = mix(selector_of(round, pround), rol[1], rol[2], rol[3]);
    let wb = rol[0] + r + x + offset;
    let w0 = word_of(wb) as u32;
    let w1 = rotl(w0, shift) as u32;
    let w2b = w1 + rol[4];
    RoundWitness {
        r,
        w0,
        wb: wb as u64,
        wc: carry_of(wb) as u64,
        w1,
        w1_h: high_part(w0, shift) as u32,
        w1_l: low_part(w0, shift) as u32,
        a_next: word_of(w2b) as u32,
        w2b: w2b as u64,
        w2c: carry_of(w2b) as u64,
        w4_h: high_part(rol[2], 10) as u32,
        w4_l: low_part(rol[2], 10) as u32,
        c_next: rotl(rol[2], 10) as u32,
    }
}

/// The state after a round step: the registers trade places, `b` takes the
/// new accumulator and `d` takes `c` rotated by 10.
pub open spec fn next_state(rol: Seq<u32>, witness: RoundWitness) -> Seq<u32> {
    seq![rol[4], witness.a_next, rol[1], witness.c_next, rol[3]]
}

/// The value of the advice cell in column `col` of the configuration,
/// `offset` rows into the window of a round step.
pub open spec fn round_cell(state: Seq<u32>, x: u32, witness: RoundWitness, col: int, offset: int) -> int {
    if col == 0 {
        if offset == 0 {
            state[0] as int
        } else if offset == 1 {
            witness.w0 as int
        } else if offset == 2 {
            witness.wb as int
        } else if offset == 3 {
            witness.wc as int
        } else {
            witness.w1 as int
        }
    } else if col == 1 {
        if offset == 0 {
            state[1] as int
        } else {
            limb_of(state[1], offset - 1)
        }
    } else if col == 2 {
        if offset == 0 {
            state[2] as int
        } else {
            limb_of(state[2], offset - 1)
        }
    } else if col == 3 {
        if offset == 0 {
            state[3] as int
        } else {
            limb_of(state[3], offset - 1)
        }
    } else if col == 4 {
        if offset == 0 {
            x as int
        } else {
            limb_of(witness.r, offset - 1)
        }
    } else if col == 5 {
        if offset == 0 {
            state[4] as int
        } else if offset == 1 {
            witness.w1_h as int
        } else if offset == 2 {
            witness.w1_l as int
        } else {
            witness.a_next as int
        }
    } else {
        if offset == 0 {
            witness.c_next as int
        } else if offset == 1 {
            witness.w4_h as int
        } else if offset == 2 {
            witness.w4_l as int
        } else if offset == 3 {
            witness.w2b as int
        } else {
            witness.w2c as int
        }
    }
}

/// The advice cells of a round step, by column and row offset.
pub open spec fn round_cells(state: Seq<u32>, x: u32, witness: RoundWitness) -> spec_fn(
    int,
    int,
) -> int {
    |col: int, offset: int| round_cell(state, x, witness, col, offset)
}

/// The identities that tie a witness to the inputs of its round step: the
/// two bounded sums with their carries, and the two rotations with their
/// cuts, each part below its boundary.
pub open spec fn consistent(
    witness: RoundWitness,
    state: Seq<u32>,
    x: u32,
    shift: u32,
    offset: u32,
) -> bool {
    &&& witness.wb == state[0] + witness.r + x + offset
    &&& witness.w0 + witness.wc * 0x1_0000_0000 == witness.wb
    &&& witness.wc <= 3
    &&& witness.w2b == witness.w1 + state[4]
    &&& witness.a_next + witness.w2c * 0x1_0000_0000 == witness.w2b
    &&& witness.w2c <= 1
    &&& witness.w1_h * pow2((32 - shift) as nat) + witness.w1_l == witness.w0
    &&& witness.w1_l * pow2(shift as nat) + witness.w1_h == witness.w1
    &&& witness.w4_h * 0x40_0000 + witness.w4_l == state[2]
    &&& witness.w4_l * 0x400 + witness.w4_h == witness.c_next
    &&& witness.w1_h < pow2(shift as nat)
    &&& witness.w1_l < pow2((32 - shift) as nat)
    &&& witness.w4_h < 0x400
    &&& witness.w4_l < 0x40_0000
}

/// Computes the witness of one round step.
pub fn get_witnesses(
    round: usize,
    rol: &[u32; 5],
    x: u32,
    shift: u32,
    offset: u32,
    pround: bool,
) -> (witness: RoundWitness)
    requires
        round < 5,
        1 <= shift <= 31,
    ensures
        witness == round_witness(round as int, rol@, x, shift, offset, pround),
        witness.r == mix(selector_of(round as int, pround), rol@[1], rol@[2], rol@[3]),
        witness.w0 == word_of(rol@[0] + witness.r + x + offset),
        witness.w1 == rotl(witness.w0, shift),
        witness.a_next == word_of(witness.w1 + rol@[4]),
        witness.c_next == rotl(rol@[2], 10),
        consistent(witness, rol@, x, shift, offset),
{
    let f: usize = if pround {
        5 - round - 1
    } else {
        round
    };
    let r: u32 = atomic(f, rol[1], rol[2], rol[3]);
    let w0: u32 = r.wrapping_add(rol[0]).wrapping_add(x).wrapping_add(offset);
    let wb: u64 = r as u64 + rol[0] as u64 + x as u64 + offset as u64;
    let wc: u64 = carry_between(wb, w0);
    let w1: u32 = rotate_left(w0, shift);
    let w1_parts = split_at(w0, shift);
    let a_next: u32 = w1.wrapping_add(rol[4]);
    let w2b: u64 = w1 as u64 + rol[4] as u64;
    let w2c: u64 = carry_between(w2b, a_next);
    let w4_parts = split_at(rol[2], 10);
    let c_next: u32 = rotate_left(rol[2], 10);
    proof {
        lemma2_to64();
        lemma_rotation_split(w0, shift);
        lemma_rotation_split(rol@[2], 10);
    }
    RoundWitness {
        r,
        w0,
        wb,
        wc,
        w1,
        w1_h: w1_parts.high,
        w1_l: w1_parts.low,
        a_next,
        w2b,
        w2c,
        w4_h: w4_parts.high,
        w4_l: w4_parts.low,
        c_next,
    }
}

/// The witness that a round step is given is consistent with its inputs.
pub proof fn lemma_round_witness(
    round: int,
    state: Seq<u32>,
    x: u32,
    shift: u32,
    offset: u32,
    pround: bool,
)
    requires
        1 <= shift <= 31,
    ensures
        consistent(round_witness(round, state, x, shift, offset, pround), state, x, shift, offset),
{
    let witness = round_witness(round, state, x, shift, offset, pround);
    lemma2_to64();
    lemma_rotation_split(witness.w0, shift);
    lemma_rotation_split(state[2], 10);
}

} // verus!
