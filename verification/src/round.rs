//! One round step: the window that it fills, and why the window meets the
//! equations of a round step.

use crate::chip::RMD160Chip;
use crate::config::{
    c_rotate, fill_step, lemma_window_cells, lemma_window_frame, limbs_sum, round_assigned,
    round_equations, round_slots, sum_with_bound, sum_with_rotated, w0_rotate,
};
use crate::gate::{GateCell, RoundGate, ADVICE};
use crate::meaning::round_ranges;
use crate::table::{are_words, values_of, AssignedCell, Cell, Region, Table};
use crate::witness::{
    consistent, get_witnesses, next_state, round_cells, round_witness, RoundWitness,
};
use crate::word::{lemma_limbs_round_trip, lemma_pow2_bounds, power_of_two, u32_to_limbs};
use vstd::arithmetic::power2::pow2;
use vstd::prelude::*;

verus! {

impl RMD160Chip {
    /// The fixed cells after a round step: the additive constant and the two
    /// powers of two that the rotation check multiplies by.
    pub open spec fn round_fixed(
        &self,
        before: Map<(int, int), int>,
        start_offset: usize,
        shift: u32,
        offset: u32,
    ) -> Map<(int, int), int> {
        let column = self.columns().fixed@[0] as int;
        before.insert((column, start_offset as int), offset as int).insert(
            (column, start_offset + 1),
            pow2(shift as nat) as int,
        ).insert((column, start_offset + 2), pow2((32 - shift) as nat) as int)
    }

    /// The table after a round step: the window that starts at
    /// `start_offset` is written, the first selector is on for its first row,
    /// and the five state words and the message word are tied to where they
    /// came from.
    pub open spec fn round_table(
        &self,
        before: Table,
        start_offset: usize,
        previous: Seq<AssignedCell>,
        input: AssignedCell,
        shift: u32,
        offset: u32,
        witness: RoundWitness,
    ) -> Table {
        let config = self.columns();
        Table {
            index: before.index,
            advice: before.advice.union_prefer_right(
                config.window(
                    start_offset as int,
                    round_slots(),
                    round_cells(values_of(previous), input.value as u32, witness),
                ),
            ),
            fixed: self.round_fixed(before.fixed, start_offset, shift, offset),
            enabled: before.enabled.insert((config.selector@[0] as int, start_offset as int)),
            copies: before.copies + self.round_copies(before.index, start_offset, previous, input),
        }
    }

    /// `after` is `before` with one more round step.
    pub open spec fn round_filled(
        &self,
        before: Table,
        after: Table,
        start_offset: usize,
        previous: Seq<AssignedCell>,
        input: AssignedCell,
        shift: u32,
        offset: u32,
        witness: RoundWitness,
    ) -> bool {
        after == self.round_table(before, start_offset, previous, input, shift, offset, witness)
    }

    /// The copy constraints of a round step, in the order of their making:
    /// the five state words and the message word, each tied to where it
    /// came from.
    pub open spec fn round_copies(
        &self,
        region: usize,
        start_offset: usize,
        previous: Seq<AssignedCell>,
        input: AssignedCell,
    ) -> Seq<(Cell, Cell)> {
        let config = self.columns();
        seq![
            (config.advice_cell(region, start_offset, 0, 0), previous[0].cell),
            (config.advice_cell(region, start_offset, 1, 0), previous[1].cell),
            (config.advice_cell(region, start_offset, 2, 0), previous[2].cell),
            (config.advice_cell(region, start_offset, 3, 0), previous[3].cell),
            (config.advice_cell(region, start_offset, 5, 0), previous[4].cell),
            (config.advice_cell(region, start_offset, 4, 0), input.cell),
        ]
    }

    /// The cells that a round step hands on: `e`, the new accumulator, `b`,
    /// `c` rotated and `d`.
    pub open spec fn round_outputs(
        &self,
        region: usize,
        start_offset: usize,
        previous: Seq<AssignedCell>,
        witness: RoundWitness,
    ) -> Seq<AssignedCell> {
        let config = self.columns();
        seq![
            AssignedCell {
                cell: config.advice_cell(region, start_offset, 5, 0),
                value: previous[4].value,
            },
            AssignedCell {
                cell: config.advice_cell(region, start_offset, 5, 3),
                value: witness.a_next as u64,
            },
            AssignedCell {
                cell: config.advice_cell(region, start_offset, 1, 0),
                value: previous[1].value,
            },
            AssignedCell {
                cell: config.advice_cell(region, start_offset, 6, 0),
                value: witness.c_next as u64,
            },
            AssignedCell {
                cell: config.advice_cell(region, start_offset, 3, 0),
                value: previous[3].value,
            },
        ]
    }

    /// Writes the four limbs of a word into rows 1 to 4 of one column.
    fn assign_limbs(
        &self,
        region: &mut Region,
        start_offset: usize,
        l0: GateCell,
        l1: GateCell,
        l2: GateCell,
        l3: GateCell,
        limbs: &[u64; 4],
        Ghost(base): Ghost<Table>,
        Ghost(slots): Ghost<Set<(int, int)>>,
        Ghost(cells): Ghost<spec_fn(int, int) -> int>,
    ) -> (filled: Ghost<Set<(int, int)>>)
        requires
            self.columns().wf(),
            l0.kind() == ADVICE && l1.kind() == ADVICE && l2.kind() == ADVICE && l3.kind()
                == ADVICE,
            l0.col() < 7 && l1.col() == l0.col() && l2.col() == l0.col() && l3.col() == l0.col(),
            l0.row() == 1 && l1.row() == 2 && l2.row() == 3 && l3.row() == 4,
            start_offset + 4 <= usize::MAX,
            forall|i: int| 0 <= i < 4 ==> limbs@[i] == cells(l0.col() as int, i + 1),
            old(region)@.advice == base.advice.union_prefer_right(
                self.columns().window(start_offset as int, slots, cells),
            ),
        ensures
            final(region).index == old(region).index,
            final(region)@ == (Table { advice: final(region)@.advice, ..old(region)@ }),
            filled@ == slots.insert((l0.col() as int, 1)).insert((l0.col() as int, 2)).insert(
                (l0.col() as int, 3),
            ).insert((l0.col() as int, 4)),
            final(region)@.advice == base.advice.union_prefer_right(
                self.columns().window(start_offset as int, filled@, cells),
            ),
    {
        let ghost config = self.columns();
        let ghost start = start_offset as int;
        let ghost col = l0.col() as int;
        let ghost mut slots = slots;
        let ghost mut table = region@;
        self.assign_cell(region, start_offset, l0, limbs[0]);
        proof {
            slots = fill_step(config, base, table, region@, start, slots, cells, col, 1);
            table = region@;
        }
        self.assign_cell(region, start_offset, l1, limbs[1]);
        proof {
            slots = fill_step(config, base, table, region@, start, slots, cells, col, 2);
            table = region@;
        }
        self.assign_cell(region, start_offset, l2, limbs[2]);
        proof {
            slots = fill_step(config, base, table, region@, start, slots, cells, col, 3);
            table = region@;
        }
        self.assign_cell(region, start_offset, l3, limbs[3]);
        proof {
            slots = fill_step(config, base, table, region@, start, slots, cells, col, 4);
            table = region@;
        }
        Ghost(slots)
    }

    /// Fills the window of one round step: binds the incoming state and the
    /// message word, writes the witness, switches the round on, and hands on
    /// the new state.
    pub fn assign_next(
        &self,
        region: &mut Region,
        start_offset: usize,
        previous: &[AssignedCell; 5],
        input: &AssignedCell,
        round: usize,
        index: usize,
        shift: &[[u32; 16]; 5],
        offset: &[u32; 5],
        pround: bool,
    ) -> (next: [AssignedCell; 5])
        requires
            self.columns().wf(),
            round < 5,
            index < 16,
            1 <= shift@[round as int]@[index as int] <= 31,
            start_offset + 4 <= usize::MAX,
            are_words(previous@),
            input.value <= u32::MAX,
        ensures
            self.round_filled(
                old(region)@,
                final(region)@,
                start_offset,
                previous@,
                *input,
                shift@[round as int]@[index as int],
                offset@[round as int],
                round_witness(
                    round as int,
                    values_of(previous@),
                    input.value as u32,
                    shift@[round as int]@[index as int],
                    offset@[round as int],
                    pround,
                ),
            ),
            next@ == self.round_outputs(
                old(region)@.index,
                start_offset,
                previous@,
                round_witness(
                    round as int,
                    values_of(previous@),
                    input.value as u32,
                    shift@[round as int]@[index as int],
                    offset@[round as int],
                    pround,
                ),
            ),
            values_of(next@) == next_state(
                values_of(previous@),
                round_witness(
                    round as int,
                    values_of(previous@),
                    input.value as u32,
                    shift@[round as int]@[index as int],
                    offset@[round as int],
                    pround,
                ),
            ),
            are_words(next@),
            forall|i: int|
                0 <= i < 5 ==> final(region)@.holds((#[trigger] next@[i]).cell, next@[i].value as int),
            round_assigned(self.columns(), final(region)@, start_offset as int),
            round_equations(self.columns(), final(region)@, start_offset as int),
            round_ranges(
                self.columns(),
                final(region)@,
                start_offset as int,
                shift@[round as int]@[index as int],
            ),
            self.columns().sel(final(region)@, start_offset as int, 0) == 1,
            final(region)@.unchanged_outside(old(region)@, start_offset as int, start_offset + 5),
    {
        let ghost base = region@;
        let ghost config = self.columns();
        let ghost start = start_offset as int;
        let ghost state = values_of(previous@);
        let ghost spec_witness = round_witness(
            round as int,
            state,
            input.value as u32,
            shift@[round as int]@[index as int],
            offset@[round as int],
            pround,
        );
        let ghost cells = round_cells(state, input.value as u32, spec_witness);
        let ghost mut slots: Set<(int, int)> = Set::empty();
        let ghost mut table = region@;
        proof {
            region.lemma_index();
            assert(table.advice =~= base.advice.union_prefer_right(
                config.window(start, slots, cells),
            ));
        }
        self.bind_cell(region, start_offset, RoundGate::a(), &previous[0]);
        proof {
            slots = fill_step(config, base, table, region@, start, slots, cells, 0, 0);
            table = region@;
        }
        let b = self.bind_cell(region, start_offset, RoundGate::b(), &previous[1]);
        proof {
            slots = fill_step(config, base, table, region@, start, slots, cells, 1, 0);
            table = region@;
        }
        self.bind_cell(region, start_offset, RoundGate::c(), &previous[2]);
        proof {
            slots = fill_step(config, base, table, region@, start, slots, cells, 2, 0);
            table = region@;
        }
        let d = self.bind_cell(region, start_offset, RoundGate::d(), &previous[3]);
        proof {
            slots = fill_step(config, base, table, region@, start, slots, cells, 3, 0);
            table = region@;
        }
        let e = self.bind_cell(region, start_offset, RoundGate::e(), &previous[4]);
        proof {
            slots = fill_step(config, base, table, region@, start, slots, cells, 5, 0);
            table = region@;
        }

        self.bind_cell(region, start_offset, RoundGate::x(), input);
        proof {
            slots = fill_step(config, base, table, region@, start, slots, cells, 4, 0);
            table = region@;
        }

        let amount: u32 = shift[round][index];
        self.assign_cell(region, start_offset, RoundGate::w1_r(), power_of_two(amount));
        self.assign_cell(region, start_offset, RoundGate::w1_rr(), power_of_two(32 - amount));
        proof {
            table = region@;
        }

        let blimbs = u32_to_limbs(previous[1].value as u32);
        let Ghost(filled) = self.assign_limbs(
            region,
            start_offset,
            RoundGate::blimb(0),
            RoundGate::blimb(1),
            RoundGate::blimb(2),
            RoundGate::blimb(3),
            &blimbs,
            Ghost(base),
            Ghost(slots),
            Ghost(cells),
        );
        proof {
            slots = filled;
        }
        let climbs = u32_to_limbs(previous[2].value as u32);
        let Ghost(filled) = self.assign_limbs(
            region,
            start_offset,
            RoundGate::climb(0),
            RoundGate::climb(1),
            RoundGate::climb(2),
            RoundGate::climb(3),
            &climbs,
            Ghost(base),
            Ghost(slots),
            Ghost(cells),
        );
        proof {
            slots = filled;
        }
        let dlimbs = u32_to_limbs(previous[3].value as u32);
        let Ghost(filled) = self.assign_limbs(
            region,
            start_offset,
            RoundGate::dlimb(0),
            RoundGate::dlimb(1),
            RoundGate::dlimb(2),
            RoundGate::dlimb(3),
            &dlimbs,
            Ghost(base),
            Ghost(slots),
            Ghost(cells),
        );
        proof {
            slots = filled;
        }

        let rol: [u32; 5] = [
            previous[0].value as u32,
            previous[1].value as u32,
            previous[2].value as u32,
            previous[3].value as u32,
            previous[4].value as u32,
        ];
        assert(rol@ =~= state);
        let witness = get_witnesses(
            round,
            &rol,
            input.value as u32,
            amount,
            offset[round],
            pround,
        );
        self.assign_cell(region, start_offset, RoundGate::offset(), offset[round] as u64);
        let rlimbs = u32_to_limbs(witness.r);
        let Ghost(filled) = self.assign_limbs(
            region,
            start_offset,
            RoundGate::rlimb(0),
            RoundGate::rlimb(1),
            RoundGate::rlimb(2),
            RoundGate::rlimb(3),
            &rlimbs,
            Ghost(base),
            Ghost(slots),
            Ghost(cells),
        );
        proof {
            slots = filled;
            table = region@;
        }
        self.assign_cell(region, start_offset, RoundGate::w0(), witness.w0 as u64);
        proof {
            slots = fill_step(config, base, table, region@, start, slots, cells, 0, 1);
            table = region@;
        }
        self.assign_cell(region, start_offset, RoundGate::wb(), witness.wb);
        proof {
            slots = fill_step(config, base, table, region@, start, slots, cells, 0, 2);
            table = region@;
        }
        self.assign_cell(region, start_offset, RoundGate::wc(), witness.wc);
        proof {
            slots = fill_step(config, base, table, region@, start, slots, cells, 0, 3);
            table = region@;
        }
        self.assign_cell(region, start_offset, RoundGate::w1(), witness.w1 as u64);
        proof {
            slots = fill_step(config, base, table, region@, start, slots, cells, 0, 4);
            table = region@;
        }
        self.assign_cell(region, start_offset, RoundGate::w1_h(), witness.w1_h as u64);
        proof {
            slots = fill_step(config, base, table, region@, start, slots, cells, 5, 1);
            table = region@;
        }
        self.assign_cell(region, start_offset, RoundGate::w1_l(), witness.w1_l as u64);
        proof {
            slots = fill_step(config, base, table, region@, start, slots, cells, 5, 2);
            table = region@;
        }
        self.assign_cell(region, start_offset, RoundGate::w4_h(), witness.w4_h as u64);
        proof {
            slots = fill_step(config, base, table, region@, start, slots, cells, 6, 1);
            table = region@;
        }
        self.assign_cell(region, start_offset, RoundGate::w4_l(), witness.w4_l as u64);
        proof {
            slots = fill_step(config, base, table, region@, start, slots, cells, 6, 2);
            table = region@;
        }
        self.assign_cell(region, start_offset, RoundGate::w2b(), witness.w2b);
        proof {
            slots = fill_step(config, base, table, region@, start, slots, cells, 6, 3);
            table = region@;
        }
        self.assign_cell(region, start_offset, RoundGate::w2c(), witness.w2c);
        proof {
            slots = fill_step(config, base, table, region@, start, slots, cells, 6, 4);
            table = region@;
        }
        self.enable_selector(region, start_offset, RoundGate::hsel(0));
        proof {
            table = region@;
        }
        let a = self.assign_cell(region, start_offset, RoundGate::a_next(), witness.a_next as u64);
        proof {
            slots = fill_step(config, base, table, region@, start, slots, cells, 5, 3);
            table = region@;
        }
        let c = self.assign_cell(region, start_offset, RoundGate::c_next(), witness.c_next as u64);
        proof {
            slots = fill_step(config, base, table, region@, start, slots, cells, 6, 0);
            table = region@;
        }
        let next: [AssignedCell; 5] = [e, a, b, c, d];
        proof {
            lemma_pow2_bounds(amount);
            lemma_pow2_bounds((32 - amount) as u32);
            assert(slots =~= round_slots());
            assert(next@ =~= self.round_outputs(base.index, start_offset, previous@, witness));
            assert(region@.copies =~= base.copies + self.round_copies(
                base.index,
                start_offset,
                previous@,
                *input,
            ));
            assert(region@.fixed =~= self.round_fixed(
                base.fixed,
                start_offset,
                amount,
                offset@[round as int],
            ));
            lemma_round_filled(
                *self,
                base,
                region@,
                start_offset,
                previous@,
                *input,
                amount,
                offset@[round as int],
                witness,
            );
        }
        next
    }
}

/// A filled round window is complete.
proof fn lemma_round_filled_assigned(
    chip: RMD160Chip,
    before: Table,
    after: Table,
    start_offset: usize,
    previous: Seq<AssignedCell>,
    input: AssignedCell,
    shift: u32,
    offset: u32,
    witness: RoundWitness,
)
    requires
        chip.columns().wf(),
        start_offset + 4 <= usize::MAX,
        previous.len() == 5,
        are_words(previous),
        input.value <= u32::MAX,
        1 <= shift <= 31,
        consistent(witness, values_of(previous), input.value as u32, shift, offset),
        chip.round_filled(before, after, start_offset, previous, input, shift, offset, witness),
    ensures
        round_assigned(chip.columns(), after, start_offset as int),
        chip.columns().sel(after, start_offset as int, 0) == 1,
{
    let config = chip.columns();
    let start = start_offset as int;
    let state = values_of(previous);
    let cells = round_cells(state, input.value as u32, witness);
    lemma_window_cells(config, before, after, start, round_slots(), cells);
}

/// A filled round window meets both bounded sums.
proof fn lemma_round_filled_sums(
    chip: RMD160Chip,
    before: Table,
    after: Table,
    start_offset: usize,
    previous: Seq<AssignedCell>,
    input: AssignedCell,
    shift: u32,
    offset: u32,
    witness: RoundWitness,
)
    requires
        chip.columns().wf(),
        start_offset + 4 <= usize::MAX,
        previous.len() == 5,
        are_words(previous),
        input.value <= u32::MAX,
        1 <= shift <= 31,
        consistent(witness, values_of(previous), input.value as u32, shift, offset),
        chip.round_filled(before, after, start_offset, previous, input, shift, offset, witness),
    ensures
        sum_with_bound(chip.columns(), after, start_offset as int),
        sum_with_rotated(chip.columns(), after, start_offset as int),
{
    let config = chip.columns();
    let start = start_offset as int;
    let state = values_of(previous);
    let cells = round_cells(state, input.value as u32, witness);
    lemma_window_cells(config, before, after, start, round_slots(), cells);
    lemma_limbs_round_trip(witness.r);
}

/// A filled round window meets the limb decomposition.
proof fn lemma_round_filled_limbs(
    chip: RMD160Chip,
    before: Table,
    after: Table,
    start_offset: usize,
    previous: Seq<AssignedCell>,
    input: AssignedCell,
    shift: u32,
    offset: u32,
    witness: RoundWitness,
)
    requires
        chip.columns().wf(),
        start_offset + 4 <= usize::MAX,
        previous.len() == 5,
        are_words(previous),
        input.value <= u32::MAX,
        1 <= shift <= 31,
        consistent(witness, values_of(previous), input.value as u32, shift, offset),
        chip.round_filled(before, after, start_offset, previous, input, shift, offset, witness),
    ensures
        limbs_sum(chip.columns(), after, start_offset as int),
{
    let config = chip.columns();
    let start = start_offset as int;
    let state = values_of(previous);
    let cells = round_cells(state, input.value as u32, witness);
    lemma_window_cells(config, before, after, start, round_slots(), cells);
    lemma_limbs_round_trip(state[1]);
    lemma_limbs_round_trip(state[2]);
    lemma_limbs_round_trip(state[3]);
}

/// A filled round window meets both rotation checks.
proof fn lemma_round_filled_rotations(
    chip: RMD160Chip,
    before: Table,
    after: Table,
    start_offset: usize,
    previous: Seq<AssignedCell>,
    input: AssignedCell,
    shift: u32,
    offset: u32,
    witness: RoundWitness,
)
    requires
        chip.columns().wf(),
        start_offset + 4 <= usize::MAX,
        previous.len() == 5,
        are_words(previous),
        input.value <= u32::MAX,
        1 <= shift <= 31,
        consistent(witness, values_of(previous), input.value as u32, shift, offset),
        chip.round_filled(before, after, start_offset, previous, input, shift, offset, witness),
    ensures
        c_rotate(chip.columns(), after, start_offset as int),
        w0_rotate(chip.columns(), after, start_offset as int),
{
    let config = chip.columns();
    let start = start_offset as int;
    let state = values_of(previous);
    let cells = round_cells(state, input.value as u32, witness);
    lemma_window_cells(config, before, after, start, round_slots(), cells);
}

/// The cells that a filled round window hands on are its own, and hold the
/// next state.
proof fn lemma_round_filled_outputs(
    chip: RMD160Chip,
    before: Table,
    after: Table,
    start_offset: usize,
    previous: Seq<AssignedCell>,
    input: AssignedCell,
    shift: u32,
    offset: u32,
    witness: RoundWitness,
)
    requires
        chip.columns().wf(),
        start_offset + 4 <= usize::MAX,
        previous.len() == 5,
        are_words(previous),
        input.value <= u32::MAX,
        1 <= shift <= 31,
        consistent(witness, values_of(previous), input.value as u32, shift, offset),
        chip.round_filled(before, after, start_offset, previous, input, shift, offset, witness),
    ensures
        forall|i: int|
            0 <= i < 5 ==> after.holds(
                (#[trigger] chip.round_outputs(before.index, start_offset, previous, witness)[i]).cell,
                chip.round_outputs(before.index, start_offset, previous, witness)[i].value as int,
            ),
        values_of(chip.round_outputs(before.index, start_offset, previous, witness)) == next_state(
            values_of(previous),
            witness,
        ),
        are_words(chip.round_outputs(before.index, start_offset, previous, witness)),
{
    let config = chip.columns();
    let start = start_offset as int;
    let state = values_of(previous);
    let cells = round_cells(state, input.value as u32, witness);
    lemma_window_cells(config, before, after, start, round_slots(), cells);
    let outputs = chip.round_outputs(before.index, start_offset, previous, witness);
    assert(config.has_adv(after, start, 5, 0) && config.adv(after, start, 5, 0) == cells(5, 0));
    assert(config.has_adv(after, start, 5, 3) && config.adv(after, start, 5, 3) == cells(5, 3));
    assert(config.has_adv(after, start, 1, 0) && config.adv(after, start, 1, 0) == cells(1, 0));
    assert(config.has_adv(after, start, 6, 0) && config.adv(after, start, 6, 0) == cells(6, 0));
    assert(config.has_adv(after, start, 3, 0) && config.adv(after, start, 3, 0) == cells(3, 0));
    assert(after.holds(outputs[0].cell, outputs[0].value as int));
    assert(after.holds(outputs[1].cell, outputs[1].value as int));
    assert(after.holds(outputs[2].cell, outputs[2].value as int));
    assert(after.holds(outputs[3].cell, outputs[3].value as int));
    assert(after.holds(outputs[4].cell, outputs[4].value as int));
    assert(values_of(outputs) =~= next_state(values_of(previous), witness));
}

/// A filled round window leaves every other row as it was.
proof fn lemma_round_filled_frame(
    chip: RMD160Chip,
    before: Table,
    after: Table,
    start_offset: usize,
    previous: Seq<AssignedCell>,
    input: AssignedCell,
    shift: u32,
    offset: u32,
    witness: RoundWitness,
)
    requires
        chip.columns().wf(),
        start_offset + 4 <= usize::MAX,
        previous.len() == 5,
        are_words(previous),
        input.value <= u32::MAX,
        1 <= shift <= 31,
        consistent(witness, values_of(previous), input.value as u32, shift, offset),
        chip.round_filled(before, after, start_offset, previous, input, shift, offset, witness),
    ensures
        after.unchanged_outside(before, start_offset as int, start_offset + 5),
{
    let config = chip.columns();
    let start = start_offset as int;
    let state = values_of(previous);
    let cells = round_cells(state, input.value as u32, witness);
    lemma_window_frame(config, before, after, start, round_slots(), cells);
}

/// A filled round window keeps within the ranges that its equations rely
/// on.
proof fn lemma_round_filled_ranges(
    chip: RMD160Chip,
    before: Table,
    after: Table,
    start_offset: usize,
    previous: Seq<AssignedCell>,
    input: AssignedCell,
    shift: u32,
    offset: u32,
    witness: RoundWitness,
)
    requires
        chip.columns().wf(),
        start_offset + 4 <= usize::MAX,
        previous.len() == 5,
        are_words(previous),
        input.value <= u32::MAX,
        1 <= shift <= 31,
        consistent(witness, values_of(previous), input.value as u32, shift, offset),
        chip.round_filled(before, after, start_offset, previous, input, shift, offset, witness),
    ensures
        round_ranges(chip.columns(), after, start_offset as int, shift),
{
    let config = chip.columns();
    let start = start_offset as int;
    let state = values_of(previous);
    let cells = round_cells(state, input.value as u32, witness);
    lemma_window_cells(config, before, after, start, round_slots(), cells);
}

/// A filled round window is complete and meets the equations of a round
/// step, provided that the witness is consistent with the inputs; nothing
/// outside its five rows has changed, and the cells that it hands on are its
/// own and hold the next state.
pub proof fn lemma_round_filled(
    chip: RMD160Chip,
    before: Table,
    after: Table,
    start_offset: usize,
    previous: Seq<AssignedCell>,
    input: AssignedCell,
    shift: u32,
    offset: u32,
    witness: RoundWitness,
)
    requires
        chip.columns().wf(),
        start_offset + 4 <= usize::MAX,
        previous.len() == 5,
        are_words(previous),
        input.value <= u32::MAX,
        1 <= shift <= 31,
        consistent(witness, values_of(previous), input.value as u32, shift, offset),
        chip.round_filled(before, after, start_offset, previous, input, shift, offset, witness),
    ensures
        round_assigned(chip.columns(), after, start_offset as int),
        round_equations(chip.columns(), after, start_offset as int),
        chip.columns().sel(after, start_offset as int, 0) == 1,
        after.unchanged_outside(before, start_offset as int, start_offset + 5),
        forall|i: int|
            0 <= i < 5 ==> after.holds(
                (#[trigger] chip.round_outputs(before.index, start_offset, previous, witness)[i]).cell,
                chip.round_outputs(before.index, start_offset, previous, witness)[i].value as int,
            ),
        values_of(chip.round_outputs(before.index, start_offset, previous, witness)) == next_state(
            values_of(previous),
            witness,
        ),
        are_words(chip.round_outputs(before.index, start_offset, previous, witness)),
        round_ranges(chip.columns(), after, start_offset as int, shift),
{
    lemma_round_filled_assigned(chip, before, after, start_offset, previous, input, shift, offset, witness);
    lemma_round_filled_sums(chip, before, after, start_offset, previous, input, shift, offset, witness);
    lemma_round_filled_limbs(chip, before, after, start_offset, previous, input, shift, offset, witness);
    lemma_round_filled_rotations(chip, before, after, start_offset, previous, input, shift, offset, witness);
    lemma_round_filled_outputs(chip, before, after, start_offset, previous, input, shift, offset, witness);
    lemma_round_filled_frame(chip, before, after, start_offset, previous, input, shift, offset, witness);
    lemma_round_filled_ranges(chip, before, after, start_offset, previous, input, shift, offset, witness);
}

} // verus!
