//! The compression function that the circuit proves, as mathematics.

use crate::schedule::{left_view, right_view, LineView};
use crate::witness::{next_state, round_witness, RoundWitness};
use crate::word::word_of;
use vstd::prelude::*;

verus! {

/// The witness of step `k` of a line, counted from zero, on state `state`.
pub open spec fn step_witness(line: LineView, state: Seq<u32>, message: Seq<u32>, k: int) -> RoundWitness {
    let round = k / 16;
    let index = k % 16;
    round_witness(
        round,
        state,
        message[line.order[round][index] as int],
        line.shift[round][index],
        line.offset[round],
        line.mirrored,
    )
}

/// The state after step `k` of a line, counted from zero, on state `state`.
pub open spec fn step(line: LineView, state: Seq<u32>, message: Seq<u32>, k: int) -> Seq<u32> {
    next_state(state, step_witness(line, state, message, k))
}

/// The state of a line after its first `steps` steps.
pub open spec fn line_state(line: LineView, start: Seq<u32>, message: Seq<u32>, steps: nat) -> Seq<
    u32,
>
    decreases steps,
{
    if steps == 0 {
        start
    } else {
        step(line, line_state(line, start, message, (steps - 1) as nat), message, steps - 1)
    }
}

/// The final merge: word `i` of the result is the sum, reduced to a word, of
/// word `i` of the initial state, word `i + 1` of the left line and word
/// `i + 2` of the right line, the indices taken cyclically.
pub open spec fn merge(initial: Seq<u32>, left: Seq<u32>, right: Seq<u32>) -> Seq<u32> {
    Seq::new(5, |i: int| word_of(initial[i] + left[(i + 1) % 5] + right[(i + 2) % 5]) as u32)
}

/// One application of the compression function: both lines run over the
/// message from the same initial state and are merged with it. In terms of
/// the chaining variables `h0` to `h4` of RIPEMD-160, the result holds the
/// new `h4`, `h0`, `h1`, `h2` and `h3`, in this order.
pub open spec fn compress(initial: Seq<u32>, message: Seq<u32>) -> Seq<u32> {
    merge(
        initial,
        line_state(left_view(), initial, message, 80),
        line_state(right_view(), initial, message, 80),
    )
}

} // verus!
