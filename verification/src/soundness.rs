//! Why the rows that the chip writes meet the constraints that it states.
//!
//! Every window is written into rows that nothing has touched before, so the
//! windows cannot disturb each other: what held of a window when it was
//! written holds of it for good. The equations of a window follow from the
//! identities of its witness; the copy constraints hold because every cell
//! that is bound takes the value of the cell that it is tied to.

use crate::chip::RMD160Chip;
use crate::compress::{compress_cells, lemma_compress_filled};
use crate::config::{
    c_rotate, compress_assigned, compress_equations, limbs_sum, merge_row, round_assigned,
    round_equations, sum_with_bound, sum_with_rotated, w0_rotate, RMD160Config,
};
use crate::configure::configured;
use crate::hash::{compress, line_state, merge, step_witness};
use crate::plonk::ConstraintSystem;
use crate::round::lemma_round_filled;
use crate::schedule::{left_view, lemma_standard_schedules, right_view, LineView};
use crate::table::{are_words, values_of, AssignedCell, Cell, Table};
use crate::witness::{consistent, lemma_round_witness, RoundWitness};
use vstd::prelude::*;

verus! {

/// Wherever a selector is on, the window that starts there is complete and
/// meets the equations that the selector enables.
pub open spec fn sound(config: RMD160Config, table: Table) -> bool {
    &&& forall|row: int| #[trigger]
        config.sel(table, row, 0) == 1 ==> round_assigned(config, table, row) && round_equations(
            config,
            table,
            row,
        )
    &&& forall|row: int| #[trigger]
        config.sel(table, row, 1) == 1 ==> compress_assigned(config, table, row)
            && compress_equations(config, table, row)
}

/// `values` gives every cell of the list the value that was committed to it.
pub open spec fn agrees(values: Map<Cell, int>, cells: Seq<AssignedCell>) -> bool {
    forall|i: int| 0 <= i < cells.len() ==> values[(#[trigger] cells[i]).cell] == cells[i].value
}

/// Whatever values the cells of other regions have, as long as the cells of
/// `incoming` have the values that were committed to them, the table's own
/// values meet every copy constraint of the table.
pub open spec fn closed_under(table: Table, incoming: Seq<AssignedCell>) -> bool {
    forall|values: Map<Cell, int>|
        #![trigger table.extended_by(values)]
        table.extended_by(values) && agrees(values, incoming) ==> table.respected_by(values)
}

/// The value of `cell` is fixed by the table and by `incoming`: it is one of
/// the table's own cells, or tied down by the cells that came in.
pub open spec fn pinned(table: Table, incoming: Seq<AssignedCell>, cell: AssignedCell) -> bool {
    forall|values: Map<Cell, int>|
        #![trigger table.extended_by(values)]
        table.extended_by(values) && agrees(values, incoming) ==> values[cell.cell] == cell.value
}

/// Every cell of the list is pinned.
pub open spec fn all_pinned(
    table: Table,
    incoming: Seq<AssignedCell>,
    cells: Seq<AssignedCell>,
) -> bool {
    forall|i: int| 0 <= i < cells.len() ==> pinned(table, incoming, #[trigger] cells[i])
}

/// A cell that the table holds is pinned.
pub proof fn lemma_held_is_pinned(table: Table, incoming: Seq<AssignedCell>, cell: AssignedCell)
    requires
        table.holds(cell.cell, cell.value as int),
    ensures
        pinned(table, incoming, cell),
{
}

/// A cell that came in is pinned.
pub proof fn lemma_incoming_is_pinned(table: Table, incoming: Seq<AssignedCell>, i: int)
    requires
        0 <= i < incoming.len(),
    ensures
        pinned(table, incoming, incoming[i]),
{
}

/// A pinned cell stays pinned when the table grows.
pub proof fn lemma_pinned_grows(
    table: Table,
    later: Table,
    incoming: Seq<AssignedCell>,
    cell: AssignedCell,
)
    requires
        pinned(table, incoming, cell),
        table.grows_into(later),
    ensures
        pinned(later, incoming, cell),
{
    assert forall|values: Map<Cell, int>|
        #![trigger later.extended_by(values)]
        later.extended_by(values) && agrees(values, incoming) implies values[cell.cell]
        == cell.value by {
        assert(table.extended_by(values));
    }
}

/// What a window holds is not disturbed by writing rows that were untouched.
proof fn lemma_cells_preserved(
    config: RMD160Config,
    before: Table,
    after: Table,
    row: int,
    from: int,
    to: int,
)
    requires
        before.untouched_from(from),
        after.unchanged_outside(before, from, to),
    ensures
        forall|c: int, o: int| #[trigger]
            config.has_adv(before, row, c, o) ==> config.has_adv(after, row, c, o) && config.adv(
                after,
                row,
                c,
                o,
            ) == config.adv(before, row, c, o),
        forall|o: int| #[trigger]
            config.has_fix(before, row, o) ==> config.has_fix(after, row, o) && config.fix(
                after,
                row,
                o,
            ) == config.fix(before, row, o),
{
    assert forall|c: int, o: int| #[trigger] config.has_adv(before, row, c, o) implies config.has_adv(
        after,
        row,
        c,
        o,
    ) && config.adv(after, row, c, o) == config.adv(before, row, c, o) by {
        let key = (config.witness@[c] as int, row + o);
        assert(before.advice.dom().contains(key));
        assert(row + o < from);
        assert(after.advice.dom().contains(key));
    }
    assert forall|o: int| #[trigger] config.has_fix(before, row, o) implies config.has_fix(
        after,
        row,
        o,
    ) && config.fix(after, row, o) == config.fix(before, row, o) by {
        let key = (config.fixed@[0] as int, row + o);
        assert(before.fixed.dom().contains(key));
        assert(row + o < from);
        assert(after.fixed.dom().contains(key));
    }
}

/// A complete round window stays complete when untouched rows are written.
proof fn lemma_round_stays_assigned(
    config: RMD160Config,
    before: Table,
    after: Table,
    row: int,
    from: int,
    to: int,
)
    requires
        round_assigned(config, before, row),
        before.untouched_from(from),
        after.unchanged_outside(before, from, to),
    ensures
        round_assigned(config, after, row),
        forall|c: int, o: int|
            0 <= c < 7 && 0 <= o < 5 && !(c == 5 && o == 4) ==> #[trigger] config.adv(
                after,
                row,
                c,
                o,
            ) == config.adv(before, row, c, o),
        forall|o: int| 0 <= o < 3 ==> #[trigger] config.fix(after, row, o) == config.fix(before, row, o),
{
    lemma_cells_preserved(config, before, after, row, from, to);
    assert forall|c: int, o: int|
        0 <= c < 7 && 0 <= o < 5 && !(c == 5 && o == 4) implies #[trigger] config.has_adv(
        after,
        row,
        c,
        o,
    ) by {
        assert(config.has_adv(before, row, c, o));
    }
    assert forall|c: int, o: int|
        0 <= c < 7 && 0 <= o < 5 && !(c == 5 && o == 4) implies #[trigger] config.adv(
        after,
        row,
        c,
        o,
    ) == config.adv(before, row, c, o) by {
        assert(config.has_adv(before, row, c, o));
    }
    assert forall|o: int| 0 <= o < 3 implies #[trigger] config.has_fix(after, row, o) by {
        assert(config.has_fix(before, row, o));
    }
    assert forall|o: int| 0 <= o < 3 implies #[trigger] config.fix(after, row, o) == config.fix(
        before,
        row,
        o,
    ) by {
        assert(config.has_fix(before, row, o));
    }
}

/// A round window that meets its equations keeps meeting them when
/// untouched rows are written.
pub proof fn lemma_round_preserved(
    config: RMD160Config,
    before: Table,
    after: Table,
    row: int,
    from: int,
    to: int,
)
    requires
        round_assigned(config, before, row),
        round_equations(config, before, row),
        before.untouched_from(from),
        after.unchanged_outside(before, from, to),
    ensures
        round_assigned(config, after, row),
        round_equations(config, after, row),
{
    lemma_round_stays_assigned(config, before, after, row, from, to);
    assert(sum_with_bound(config, after, row));
    assert(sum_with_rotated(config, after, row));
    assert(limbs_sum(config, after, row));
    assert(c_rotate(config, after, row));
    assert(w0_rotate(config, after, row));
}

/// A merge window that meets its equations keeps meeting them when
/// untouched rows are written.
pub proof fn lemma_compress_preserved(
    config: RMD160Config,
    before: Table,
    after: Table,
    row: int,
    from: int,
    to: int,
)
    requires
        compress_assigned(config, before, row),
        compress_equations(config, before, row),
        before.untouched_from(from),
        after.unchanged_outside(before, from, to),
    ensures
        compress_assigned(config, after, row),
        compress_equations(config, after, row),
{
    lemma_cells_preserved(config, before, after, row, from, to);
    assert forall|c: int, o: int| 0 <= c < 6 && 0 <= o < 5 implies #[trigger] config.has_adv(
        after,
        row,
        c,
        o,
    ) && config.adv(after, row, c, o) == config.adv(before, row, c, o) by {
        assert(config.has_adv(before, row, c, o));
    }
    assert forall|i: int| 0 <= i < 5 implies #[trigger] merge_row(config, after, row, i) by {
        assert(merge_row(config, before, row, i));
        assert(config.has_adv(before, row, 0, i));
        assert(config.has_adv(before, row, 1, i));
        assert(config.has_adv(before, row, 2, i));
        assert(config.has_adv(before, row, 3, i));
        assert(config.has_adv(before, row, 4, i));
        assert(config.has_adv(before, row, 5, (i + 4) % 5));
    }
}

/// The invariant of a table under construction: every enabled window is
/// sound, the copy constraints made so far hold, and nothing has happened
/// from row `cursor` on.
pub open spec fn settled(
    config: RMD160Config,
    table: Table,
    incoming: Seq<AssignedCell>,
    cursor: int,
) -> bool {
    &&& sound(config, table)
    &&& closed_under(table, incoming)
    &&& table.untouched_from(cursor)
}

/// A window written into untouched rows leaves the rows below it untouched
/// and takes nothing away from the table, whichever selector it switches on.
proof fn lemma_window_grows(before: Table, after: Table, start: int, selector: int)
    requires
        before.untouched_from(start),
        after.index == before.index,
        after.unchanged_outside(before, start, start + 5),
        after.enabled == before.enabled.insert((selector, start)),
    ensures
        after.untouched_from(start + 5),
        before.grows_into(after),
{
    assert forall|cell: Cell, v: int| #[trigger] before.holds(cell, v) implies after.holds(
        cell,
        v,
    ) by {
        let key = (cell.column as int, cell.row as int);
        if cell.kind == crate::gate::ADVICE {
            assert(before.advice.dom().contains(key));
            assert(after.advice.dom().contains(key));
        } else {
            assert(before.fixed.dom().contains(key));
            assert(after.fixed.dom().contains(key));
        }
    }
    assert forall|c: int, r: int| r >= start + 5 implies !after.advice.dom().contains((c, r)) by {
        assert(!before.advice.dom().contains((c, r)));
    }
    assert forall|c: int, r: int| r >= start + 5 implies !after.fixed.dom().contains((c, r)) by {
        assert(!before.fixed.dom().contains((c, r)));
    }
}

/// Writing a window into untouched rows keeps every earlier window sound.
proof fn lemma_sound_preserved(
    config: RMD160Config,
    before: Table,
    after: Table,
    start: int,
    which: int,
)
    requires
        config.wf(),
        which == 0 || which == 1,
        sound(config, before),
        before.untouched_from(start),
        after.unchanged_outside(before, start, start + 5),
        after.enabled == before.enabled.insert((config.selector@[which] as int, start)),
        which == 0 ==> round_assigned(config, after, start) && round_equations(
            config,
            after,
            start,
        ),
        which == 1 ==> compress_assigned(config, after, start) && compress_equations(
            config,
            after,
            start,
        ),
    ensures
        sound(config, after),
{
    assert forall|row: int| #[trigger] config.sel(after, row, 0) == 1 implies round_assigned(
        config,
        after,
        row,
    ) && round_equations(config, after, row) by {
        if which == 0 && row == start {
        } else {
            assert(config.sel(before, row, 0) == 1);
            lemma_round_preserved(config, before, after, row, start, start + 5);
        }
    }
    assert forall|row: int| #[trigger] config.sel(after, row, 1) == 1 implies compress_assigned(
        config,
        after,
        row,
    ) && compress_equations(config, after, row) by {
        if which == 1 && row == start {
        } else {
            assert(config.sel(before, row, 1) == 1);
            lemma_compress_preserved(config, before, after, row, start, start + 5);
        }
    }
}

/// The copy constraints of a round step hold: each bound cell has the value
/// of the cell that it is tied to.
proof fn lemma_round_closed(
    chip: RMD160Chip,
    before: Table,
    after: Table,
    start_offset: usize,
    previous: Seq<AssignedCell>,
    input: AssignedCell,
    shift: u32,
    offset: u32,
    witness: RoundWitness,
    incoming: Seq<AssignedCell>,
)
    requires
        chip.columns().wf(),
        start_offset + 5 <= usize::MAX,
        previous.len() == 5,
        are_words(previous),
        input.value <= u32::MAX,
        1 <= shift <= 31,
        consistent(witness, values_of(previous), input.value as u32, shift, offset),
        after == chip.round_table(before, start_offset, previous, input, shift, offset, witness),
        closed_under(before, incoming),
        before.grows_into(after),
        all_pinned(before, incoming, previous),
        pinned(before, incoming, input),
    ensures
        closed_under(after, incoming),
{
    let config = chip.columns();
    let start = start_offset as int;
    let cells = crate::witness::round_cells(values_of(previous), input.value as u32, witness);
    crate::config::lemma_window_cells(
        config,
        before,
        after,
        start,
        crate::config::round_slots(),
        cells,
    );
    let added = chip.round_copies(before.index, start_offset, previous, input);
    let n = before.copies.len() as int;
    assert(after.copies == before.copies + added);
    assert forall|values: Map<Cell, int>|
        #![trigger after.extended_by(values)]
        after.extended_by(values) && agrees(values, incoming) implies after.respected_by(
        values,
    ) by {
        assert(before.extended_by(values));
        assert(before.respected_by(values));
        assert(pinned(before, incoming, previous[0]));
        assert(pinned(before, incoming, previous[1]));
        assert(pinned(before, incoming, previous[2]));
        assert(pinned(before, incoming, previous[3]));
        assert(pinned(before, incoming, previous[4]));
        assert(config.has_adv(after, start, 0, 0) && config.adv(after, start, 0, 0) == cells(0, 0));
        assert(config.has_adv(after, start, 1, 0) && config.adv(after, start, 1, 0) == cells(1, 0));
        assert(config.has_adv(after, start, 2, 0) && config.adv(after, start, 2, 0) == cells(2, 0));
        assert(config.has_adv(after, start, 3, 0) && config.adv(after, start, 3, 0) == cells(3, 0));
        assert(config.has_adv(after, start, 4, 0) && config.adv(after, start, 4, 0) == cells(4, 0));
        assert(config.has_adv(after, start, 5, 0) && config.adv(after, start, 5, 0) == cells(5, 0));
        assert(after.holds(added[0].0, previous[0].value as int));
        assert(after.holds(added[1].0, previous[1].value as int));
        assert(after.holds(added[2].0, previous[2].value as int));
        assert(after.holds(added[3].0, previous[3].value as int));
        assert(after.holds(added[4].0, previous[4].value as int));
        assert(after.holds(added[5].0, input.value as int));
        assert forall|k: int| 0 <= k < after.copies.len() implies values[(
        #[trigger] after.copies[k]).0] == values[after.copies[k].1] by {
            if k < n {
                assert(after.copies[k] == before.copies[k]);
            } else {
                assert(after.copies[k] == added[k - n]);
            }
        }
    }
}

/// One more round step keeps every window sound and the rows below the
/// step untouched, and takes nothing away from the table.
proof fn lemma_round_settled(
    chip: RMD160Chip,
    before: Table,
    after: Table,
    start_offset: usize,
    previous: Seq<AssignedCell>,
    input: AssignedCell,
    shift: u32,
    offset: u32,
    witness: RoundWitness,
    incoming: Seq<AssignedCell>,
)
    requires
        chip.columns().wf(),
        start_offset + 5 <= usize::MAX,
        previous.len() == 5,
        are_words(previous),
        input.value <= u32::MAX,
        1 <= shift <= 31,
        consistent(witness, values_of(previous), input.value as u32, shift, offset),
        after == chip.round_table(before, start_offset, previous, input, shift, offset, witness),
        sound(chip.columns(), before),
        before.untouched_from(start_offset as int),
    ensures
        sound(chip.columns(), after),
        after.untouched_from(start_offset + 5),
        before.grows_into(after),
{
    let config = chip.columns();
    let start = start_offset as int;
    lemma_round_filled(chip, before, after, start_offset, previous, input, shift, offset, witness);
    lemma_window_grows(before, after, start, config.selector@[0] as int);
    lemma_sound_preserved(config, before, after, start, 0);
}

/// The cells that a round step hands on are pinned.
proof fn lemma_round_outputs_pinned(
    chip: RMD160Chip,
    before: Table,
    after: Table,
    start_offset: usize,
    previous: Seq<AssignedCell>,
    input: AssignedCell,
    shift: u32,
    offset: u32,
    witness: RoundWitness,
    incoming: Seq<AssignedCell>,
)
    requires
        chip.columns().wf(),
        start_offset + 5 <= usize::MAX,
        previous.len() == 5,
        are_words(previous),
        input.value <= u32::MAX,
        1 <= shift <= 31,
        consistent(witness, values_of(previous), input.value as u32, shift, offset),
        after == chip.round_table(before, start_offset, previous, input, shift, offset, witness),
    ensures
        all_pinned(
            after,
            incoming,
            chip.round_outputs(before.index, start_offset, previous, witness),
        ),
{
    lemma_round_filled(chip, before, after, start_offset, previous, input, shift, offset, witness);
    let outputs = chip.round_outputs(before.index, start_offset, previous, witness);
    assert forall|i: int| 0 <= i < outputs.len() implies pinned(
        after,
        incoming,
        #[trigger] outputs[i],
    ) by {
        lemma_held_is_pinned(after, incoming, outputs[i]);
    }
}

/// One more round step keeps a table settled, takes nothing away from it,
/// and hands on cells that are pinned.
pub proof fn lemma_round_step(
    chip: RMD160Chip,
    before: Table,
    after: Table,
    start_offset: usize,
    previous: Seq<AssignedCell>,
    input: AssignedCell,
    shift: u32,
    offset: u32,
    witness: RoundWitness,
    incoming: Seq<AssignedCell>,
)
    requires
        chip.columns().wf(),
        start_offset + 5 <= usize::MAX,
        previous.len() == 5,
        are_words(previous),
        input.value <= u32::MAX,
        1 <= shift <= 31,
        consistent(witness, values_of(previous), input.value as u32, shift, offset),
        after == chip.round_table(before, start_offset, previous, input, shift, offset, witness),
        settled(chip.columns(), before, incoming, start_offset as int),
        all_pinned(before, incoming, previous),
        pinned(before, incoming, input),
    ensures
        settled(chip.columns(), after, incoming, start_offset + 5),
        before.grows_into(after),
        all_pinned(
            after,
            incoming,
            chip.round_outputs(before.index, start_offset, previous, witness),
        ),
{
    lemma_round_settled(
        chip,
        before,
        after,
        start_offset,
        previous,
        input,
        shift,
        offset,
        witness,
        incoming,
    );
    lemma_round_closed(
        chip,
        before,
        after,
        start_offset,
        previous,
        input,
        shift,
        offset,
        witness,
        incoming,
    );
    lemma_round_outputs_pinned(
        chip,
        before,
        after,
        start_offset,
        previous,
        input,
        shift,
        offset,
        witness,
        incoming,
    );
}

/// The copy constraints of the final merge hold: each bound cell has the
/// value of the cell that it is tied to.
proof fn lemma_compress_closed(
    chip: RMD160Chip,
    before: Table,
    after: Table,
    start_offset: usize,
    r0: Seq<AssignedCell>,
    r1: Seq<AssignedCell>,
    r2: Seq<AssignedCell>,
    incoming: Seq<AssignedCell>,
)
    requires
        chip.columns().wf(),
        start_offset + 5 <= usize::MAX,
        r0.len() == 5 && r1.len() == 5 && r2.len() == 5,
        are_words(r0) && are_words(r1) && are_words(r2),
        after == chip.compress_table(before, start_offset, r0, r1, r2),
        closed_under(before, incoming),
        before.grows_into(after),
        all_pinned(before, incoming, r0),
        all_pinned(before, incoming, r1),
        all_pinned(before, incoming, r2),
    ensures
        closed_under(after, incoming),
{
    let config = chip.columns();
    let start = start_offset as int;
    let cells = compress_cells(values_of(r0), values_of(r1), values_of(r2));
    crate::config::lemma_window_cells(
        config,
        before,
        after,
        start,
        crate::config::compress_slots(),
        cells,
    );
    let added = chip.compress_copies(before.index, start_offset, r0, r1, r2);
    let n = before.copies.len() as int;
    assert(after.copies == before.copies + added);
    assert forall|values: Map<Cell, int>|
        #![trigger after.extended_by(values)]
        after.extended_by(values) && agrees(values, incoming) implies after.respected_by(
        values,
    ) by {
        assert(before.extended_by(values));
        assert(before.respected_by(values));
        assert(pinned(before, incoming, r0[0]));
        assert(pinned(before, incoming, r0[1]));
        assert(pinned(before, incoming, r0[2]));
        assert(pinned(before, incoming, r0[3]));
        assert(pinned(before, incoming, r0[4]));
        assert(pinned(before, incoming, r1[0]));
        assert(pinned(before, incoming, r1[1]));
        assert(pinned(before, incoming, r1[2]));
        assert(pinned(before, incoming, r1[3]));
        assert(pinned(before, incoming, r1[4]));
        assert(pinned(before, incoming, r2[0]));
        assert(pinned(before, incoming, r2[1]));
        assert(pinned(before, incoming, r2[2]));
        assert(pinned(before, incoming, r2[3]));
        assert(pinned(before, incoming, r2[4]));
        assert(config.has_adv(after, start, 0, 0) && config.adv(after, start, 0, 0) == cells(0, 0));
        assert(config.has_adv(after, start, 0, 1) && config.adv(after, start, 0, 1) == cells(0, 1));
        assert(config.has_adv(after, start, 0, 2) && config.adv(after, start, 0, 2) == cells(0, 2));
        assert(config.has_adv(after, start, 0, 3) && config.adv(after, start, 0, 3) == cells(0, 3));
        assert(config.has_adv(after, start, 0, 4) && config.adv(after, start, 0, 4) == cells(0, 4));
        assert(config.has_adv(after, start, 1, 4) && config.adv(after, start, 1, 4) == cells(1, 4));
        assert(config.has_adv(after, start, 1, 0) && config.adv(after, start, 1, 0) == cells(1, 0));
        assert(config.has_adv(after, start, 1, 1) && config.adv(after, start, 1, 1) == cells(1, 1));
        assert(config.has_adv(after, start, 1, 2) && config.adv(after, start, 1, 2) == cells(1, 2));
        assert(config.has_adv(after, start, 1, 3) && config.adv(after, start, 1, 3) == cells(1, 3));
        assert(config.has_adv(after, start, 2, 3) && config.adv(after, start, 2, 3) == cells(2, 3));
        assert(config.has_adv(after, start, 2, 4) && config.adv(after, start, 2, 4) == cells(2, 4));
        assert(config.has_adv(after, start, 2, 0) && config.adv(after, start, 2, 0) == cells(2, 0));
        assert(config.has_adv(after, start, 2, 1) && config.adv(after, start, 2, 1) == cells(2, 1));
        assert(config.has_adv(after, start, 2, 2) && config.adv(after, start, 2, 2) == cells(2, 2));
        assert(after.holds(added[0].0, r0[0].value as int));
        assert(after.holds(added[1].0, r0[1].value as int));
        assert(after.holds(added[2].0, r0[2].value as int));
        assert(after.holds(added[3].0, r0[3].value as int));
        assert(after.holds(added[4].0, r0[4].value as int));
        assert(after.holds(added[5].0, r1[0].value as int));
        assert(after.holds(added[6].0, r1[1].value as int));
        assert(after.holds(added[7].0, r1[2].value as int));
        assert(after.holds(added[8].0, r1[3].value as int));
        assert(after.holds(added[9].0, r1[4].value as int));
        assert(after.holds(added[10].0, r2[0].value as int));
        assert(after.holds(added[11].0, r2[1].value as int));
        assert(after.holds(added[12].0, r2[2].value as int));
        assert(after.holds(added[13].0, r2[3].value as int));
        assert(after.holds(added[14].0, r2[4].value as int));
        assert forall|k: int| 0 <= k < after.copies.len() implies values[(
        #[trigger] after.copies[k]).0] == values[after.copies[k].1] by {
            if k < n {
                assert(after.copies[k] == before.copies[k]);
            } else {
                assert(after.copies[k] == added[k - n]);
            }
        }
    }
}

/// The final merge keeps every window sound and the rows below it
/// untouched, and takes nothing away from the table.
proof fn lemma_compress_settled(
    chip: RMD160Chip,
    before: Table,
    after: Table,
    start_offset: usize,
    r0: Seq<AssignedCell>,
    r1: Seq<AssignedCell>,
    r2: Seq<AssignedCell>,
)
    requires
        chip.columns().wf(),
        start_offset + 5 <= usize::MAX,
        r0.len() == 5 && r1.len() == 5 && r2.len() == 5,
        are_words(r0) && are_words(r1) && are_words(r2),
        after == chip.compress_table(before, start_offset, r0, r1, r2),
        sound(chip.columns(), before),
        before.untouched_from(start_offset as int),
    ensures
        sound(chip.columns(), after),
        after.untouched_from(start_offset + 5),
        before.grows_into(after),
{
    let config = chip.columns();
    let start = start_offset as int;
    lemma_compress_filled(chip, before, after, start_offset, r0, r1, r2);
    lemma_window_grows(before, after, start, config.selector@[1] as int);
    lemma_sound_preserved(config, before, after, start, 1);
}

/// The final merge keeps a table settled and takes nothing away from it.
pub proof fn lemma_compress_step(
    chip: RMD160Chip,
    before: Table,
    after: Table,
    start_offset: usize,
    r0: Seq<AssignedCell>,
    r1: Seq<AssignedCell>,
    r2: Seq<AssignedCell>,
    incoming: Seq<AssignedCell>,
)
    requires
        chip.columns().wf(),
        start_offset + 5 <= usize::MAX,
        r0.len() == 5 && r1.len() == 5 && r2.len() == 5,
        are_words(r0) && are_words(r1) && are_words(r2),
        after == chip.compress_table(before, start_offset, r0, r1, r2),
        settled(chip.columns(), before, incoming, start_offset as int),
        all_pinned(before, incoming, r0),
        all_pinned(before, incoming, r1),
        all_pinned(before, incoming, r2),
    ensures
        settled(chip.columns(), after, incoming, start_offset + 5),
        before.grows_into(after),
{
    lemma_compress_settled(chip, before, after, start_offset, r0, r1, r2);
    lemma_compress_closed(chip, before, after, start_offset, r0, r1, r2, incoming);
}

/// Every cell of a pinned list stays pinned when the table grows.
pub proof fn lemma_all_pinned_grows(
    table: Table,
    later: Table,
    incoming: Seq<AssignedCell>,
    cells: Seq<AssignedCell>,
)
    requires
        all_pinned(table, incoming, cells),
        table.grows_into(later),
    ensures
        all_pinned(later, incoming, cells),
{
    assert forall|i: int| 0 <= i < cells.len() implies pinned(later, incoming, #[trigger] cells[i]) by {
        lemma_pinned_grows(table, later, incoming, cells[i]);
    }
}

/// Growing is transitive.
pub proof fn lemma_grows_on(first: Table, second: Table, third: Table)
    requires
        first.grows_into(second),
        second.grows_into(third),
    ensures
        first.grows_into(third),
{
    assert forall|cell: Cell, v: int| #[trigger] first.holds(cell, v) implies third.holds(
        cell,
        v,
    ) by {
        assert(second.holds(cell, v));
    }
}

/// Step `k` of a line keeps a table settled, and hands on pinned words that
/// hold the next state of the line.
proof fn lemma_line_step(
    chip: RMD160Chip,
    table: Table,
    at: usize,
    cells: Seq<AssignedCell>,
    inputs: Seq<AssignedCell>,
    line: LineView,
    k: nat,
    incoming: Seq<AssignedCell>,
)
    requires
        chip.columns().wf(),
        line.wf(),
        cells.len() == 5,
        inputs.len() == 16,
        are_words(cells),
        are_words(inputs),
        k < 80,
        at + 5 <= usize::MAX,
        settled(chip.columns(), table, incoming, at as int),
        all_pinned(table, incoming, cells),
        all_pinned(table, incoming, inputs),
    ensures
        ({
            let witness = step_witness(line, values_of(cells), values_of(inputs), k as int);
            let after = chip.round_table(
                table,
                at,
                cells,
                inputs[line.order[k as int / 16][k as int % 16] as int],
                line.shift[k as int / 16][k as int % 16],
                line.offset[k as int / 16],
                witness,
            );
            let outputs = chip.round_outputs(table.index, at, cells, witness);
            &&& settled(chip.columns(), after, incoming, at + 5)
            &&& table.grows_into(after)
            &&& after.index == table.index
            &&& outputs.len() == 5
            &&& are_words(outputs)
            &&& all_pinned(after, incoming, outputs)
            &&& all_pinned(after, incoming, inputs)
            &&& values_of(outputs) == crate::hash::step(
                line,
                values_of(cells),
                values_of(inputs),
                k as int,
            )
        }),
{
    let round = k as int / 16;
    let index = k as int % 16;
    assert(0 <= round < 5 && 0 <= index < 16);
    assert(line.order[round].len() == 16 && line.shift[round].len() == 16);
    let word = line.order[round][index] as int;
    assert(0 <= word < 16);
    let input = inputs[word];
    let shift = line.shift[round][index];
    let offset = line.offset[round];
    assert(1 <= shift <= 31);
    let witness = step_witness(line, values_of(cells), values_of(inputs), k as int);
    assert(values_of(inputs)[word] == input.value as u32);
    lemma_round_witness(round, values_of(cells), input.value as u32, shift, offset, line.mirrored);
    let after = chip.round_table(table, at, cells, input, shift, offset, witness);
    assert(pinned(table, incoming, inputs[word]));
    lemma_round_step(chip, table, after, at, cells, input, shift, offset, witness, incoming);
    lemma_round_filled(chip, table, after, at, cells, input, shift, offset, witness);
    lemma_all_pinned_grows(table, after, incoming, inputs);
}

/// A line keeps a table settled: after any number of its steps every
/// window is sound, every copy constraint holds, the rows below the line are
/// untouched, and the cells of the line's state are pinned words that hold
/// the state of the line.
pub proof fn lemma_line(
    chip: RMD160Chip,
    before: Table,
    start_offset: usize,
    start: Seq<AssignedCell>,
    inputs: Seq<AssignedCell>,
    line: LineView,
    steps: nat,
    incoming: Seq<AssignedCell>,
)
    requires
        chip.columns().wf(),
        line.wf(),
        start.len() == 5,
        inputs.len() == 16,
        are_words(start),
        are_words(inputs),
        steps <= 80,
        start_offset + 5 * steps <= usize::MAX,
        settled(chip.columns(), before, incoming, start_offset as int),
        all_pinned(before, incoming, start),
        all_pinned(before, incoming, inputs),
    ensures
        settled(
            chip.columns(),
            chip.line_table(before, start_offset, start, inputs, line, steps),
            incoming,
            start_offset + 5 * steps,
        ),
        before.grows_into(chip.line_table(before, start_offset, start, inputs, line, steps)),
        chip.line_table(before, start_offset, start, inputs, line, steps).index == before.index,
        chip.line_cells(before.index, start_offset, start, inputs, line, steps).len() == 5,
        are_words(chip.line_cells(before.index, start_offset, start, inputs, line, steps)),
        all_pinned(
            chip.line_table(before, start_offset, start, inputs, line, steps),
            incoming,
            chip.line_cells(before.index, start_offset, start, inputs, line, steps),
        ),
        all_pinned(
            chip.line_table(before, start_offset, start, inputs, line, steps),
            incoming,
            inputs,
        ),
        values_of(chip.line_cells(before.index, start_offset, start, inputs, line, steps))
            == line_state(line, values_of(start), values_of(inputs), steps),
    decreases steps,
{
    if steps > 0 {
        let k = (steps - 1) as nat;
        lemma_line(chip, before, start_offset, start, inputs, line, k, incoming);
        let table = chip.line_table(before, start_offset, start, inputs, line, k);
        let cells = chip.line_cells(before.index, start_offset, start, inputs, line, k);
        let at = (start_offset + 5 * k) as usize;
        lemma_line_step(chip, table, at, cells, inputs, line, k, incoming);
        let after = chip.line_table(before, start_offset, start, inputs, line, steps);
        lemma_grows_on(before, table, after);
    }
}

/// The rows of one compression are sound: every enabled window is complete
/// and meets its equations, every copy constraint holds whatever the cells
/// of other regions hold besides the cells that came in, and the cells that
/// are handed on hold the compressed state.
pub proof fn lemma_content(
    chip: RMD160Chip,
    index: usize,
    start_buf: Seq<AssignedCell>,
    inputs: Seq<AssignedCell>,
)
    requires
        chip.columns().wf(),
        start_buf.len() == 5,
        inputs.len() == 16,
        are_words(start_buf),
        are_words(inputs),
    ensures
        sound(chip.columns(), chip.content_table(index, start_buf, inputs)),
        closed_under(chip.content_table(index, start_buf, inputs), start_buf + inputs),
        chip.content_table(index, start_buf, inputs).untouched_from(805),
        chip.content_table(index, start_buf, inputs).index == index,
        forall|i: int|
            0 <= i < 5 ==> chip.content_table(index, start_buf, inputs).holds(
                (#[trigger] chip.content_cells(index, start_buf, inputs)[i]).cell,
                chip.content_cells(index, start_buf, inputs)[i].value as int,
            ),
        values_of(chip.content_cells(index, start_buf, inputs)) == compress(
            values_of(start_buf),
            values_of(inputs),
        ),
        are_words(chip.content_cells(index, start_buf, inputs)),
{
    let config = chip.columns();
    let incoming = start_buf + inputs;
    let empty = Table::empty(index);
    lemma_standard_schedules();
    assert(settled(config, empty, incoming, 0)) by {
        assert forall|values: Map<Cell, int>|
            #![trigger empty.extended_by(values)]
            empty.extended_by(values) && agrees(values, incoming) implies empty.respected_by(
            values,
        ) by {}
    }
    assert forall|i: int| 0 <= i < start_buf.len() implies pinned(
        empty,
        incoming,
        #[trigger] start_buf[i],
    ) by {
        assert(incoming[i] == start_buf[i]);
        lemma_incoming_is_pinned(empty, incoming, i);
    }
    assert forall|i: int| 0 <= i < inputs.len() implies pinned(
        empty,
        incoming,
        #[trigger] inputs[i],
    ) by {
        assert(incoming[5 + i] == inputs[i]);
        lemma_incoming_is_pinned(empty, incoming, 5 + i);
    }
    lemma_line(chip, empty, 0, start_buf, inputs, left_view(), 80, incoming);
    let left = chip.line_table(empty, 0, start_buf, inputs, left_view(), 80);
    let r1 = chip.line_cells(index, 0, start_buf, inputs, left_view(), 80);
    lemma_all_pinned_grows(empty, left, incoming, start_buf);
    lemma_all_pinned_grows(empty, left, incoming, inputs);
    lemma_line(chip, left, 400, start_buf, inputs, right_view(), 80, incoming);
    let right = chip.line_table(left, 400, start_buf, inputs, right_view(), 80);
    let r2 = chip.line_cells(index, 400, start_buf, inputs, right_view(), 80);
    lemma_all_pinned_grows(left, right, incoming, start_buf);
    lemma_all_pinned_grows(left, right, incoming, r1);
    let table = chip.content_table(index, start_buf, inputs);
    assert(table == chip.compress_table(right, 800, start_buf, r1, r2));
    lemma_compress_step(chip, right, table, 800, start_buf, r1, r2, incoming);
    lemma_compress_filled(chip, right, table, 800, start_buf, r1, r2);
}

/// A sound table satisfies the gates of the chip: each of the six gates
/// holds on every row, and reads assigned cells only wherever its selector
/// is on.
pub proof fn lemma_gates_hold(
    before: ConstraintSystem,
    after: ConstraintSystem,
    config: RMD160Config,
    table: Table,
)
    requires
        configured(before, after, config),
        sound(config, table),
    ensures
        forall|g: int, row: int|
            before.gates@.len() <= g < after.gates@.len() ==> #[trigger] after.gates@[g].holds(
                table,
                row,
            ),
        forall|g: int, row: int|
            before.gates@.len() <= g < before.gates@.len() + 5 && config.sel(table, row, 0) == 1
                ==> #[trigger] after.gates@[g].reads_assigned(table, row),
        forall|row: int|
            config.sel(table, row, 1) == 1 ==> #[trigger] after.gates@[before.gates@.len() as int + 5].reads_assigned(
                table,
                row,
            ),
        before.gates@.len() == 0 ==> after.satisfied_by(table),
{
    let n = before.gates@.len() as int;
    assert forall|g: int, row: int| n <= g < after.gates@.len() implies #[trigger] after.gates@[g].holds(
        table,
        row,
    ) by {
        if config.sel(table, row, 0) == 1 {
            assert(round_equations(config, table, row));
        }
        if config.sel(table, row, 1) == 1 {
            assert(compress_equations(config, table, row));
        }
        if g == n {
            assert(after.gates@[n].holds(table, row));
        } else if g == n + 1 {
            assert(after.gates@[n + 1].holds(table, row));
        } else if g == n + 2 {
            assert(after.gates@[n + 2].holds(table, row));
        } else if g == n + 3 {
            assert(after.gates@[n + 3].holds(table, row));
        } else if g == n + 4 {
            assert(after.gates@[n + 4].holds(table, row));
        } else {
            assert(after.gates@[n + 5].holds(table, row));
        }
    }
}

/// The value that the table and the cells that came in give to `cell`: the
/// table's own value for a cell of its region, the committed value for a
/// cell that came in.
pub open spec fn value_in(table: Table, incoming: Seq<AssignedCell>, cell: Cell) -> int {
    if cell.region == table.index {
        if cell.kind == crate::gate::ADVICE {
            table.advice[(cell.column as int, cell.row as int)]
        } else {
            table.fixed[(cell.column as int, cell.row as int)]
        }
    } else {
        let i = choose|i: int| 0 <= i < incoming.len() && incoming[i].cell == cell;
        incoming[i].value as int
    }
}

/// The copy constraints can be met. Where the cells that came in belong to
/// other regions and no cell came in with two values, the table's own values
/// together with the committed values of the cells that came in meet every
/// copy constraint of a table that is closed under them.
pub proof fn lemma_copies_hold(table: Table, incoming: Seq<AssignedCell>)
    requires
        closed_under(table, incoming),
        forall|i: int| 0 <= i < incoming.len() ==> (#[trigger] incoming[i]).cell.region != table.index,
        forall|i: int, j: int|
            0 <= i < incoming.len() && 0 <= j < incoming.len() && (#[trigger] incoming[i]).cell == (
            #[trigger] incoming[j]).cell ==> incoming[i].value == incoming[j].value,
    ensures
        table.extended_by(Map::new(|cell: Cell| true, |cell: Cell| value_in(table, incoming, cell))),
        agrees(
            Map::new(|cell: Cell| true, |cell: Cell| value_in(table, incoming, cell)),
            incoming,
        ),
        table.respected_by(
            Map::new(|cell: Cell| true, |cell: Cell| value_in(table, incoming, cell)),
        ),
{
    let values = Map::new(|cell: Cell| true, |cell: Cell| value_in(table, incoming, cell));
    assert forall|i: int| 0 <= i < incoming.len() implies values[(#[trigger] incoming[i]).cell]
        == incoming[i].value by {
        let cell = incoming[i].cell;
        let j = choose|j: int| 0 <= j < incoming.len() && incoming[j].cell == cell;
        assert(incoming[j].cell == incoming[i].cell);
    }
    assert(table.extended_by(values));
}

} // verus!
