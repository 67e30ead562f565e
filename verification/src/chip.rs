//! The chip and what it does to single cells: writing a value, switching a
//! selector on, and binding a committed value into a window.

use crate::config::RMD160Config;
use crate::gate::{GateCell, ADVICE, FIXED, SELECTOR};
use crate::table::{AssignedCell, Assignment, Cell, Region, Table};
use vstd::prelude::*;

verus! {

/// Builds the rows that prove one application of the compression function.
pub struct RMD160Chip {
    config: RMD160Config,
}

/// Binding is idempotent: a committed value bound at two places yields two
/// cells that hold the value of the cell it came from, and every assignment
/// of values which meets the copy constraints gives the two cells the same
/// value, the one that it gives to the cell that the value came from.
pub proof fn lemma_binding_idempotent(
    chip: RMD160Chip,
    before: Table,
    between: Table,
    region: usize,
    value: AssignedCell,
    first: GateCell,
    first_offset: usize,
    second: GateCell,
    second_offset: usize,
)
    requires
        chip.bound_table(before, region, first_offset, first, value).copies.is_prefix_of(
            between.copies,
        ),
    ensures
        chip.bound_cell(region, first_offset, first, value).value == value.value,
        chip.bound_cell(region, second_offset, second, value).value == value.value,
        chip.bound_table(between, region, second_offset, second, value).ties(
            chip.bound_cell(region, first_offset, first, value).cell,
            value.cell,
        ),
        chip.bound_table(between, region, second_offset, second, value).ties(
            chip.bound_cell(region, second_offset, second, value).cell,
            value.cell,
        ),
        chip.bound_table(between, region, second_offset, second, value).ties(
            chip.bound_cell(region, first_offset, first, value).cell,
            chip.bound_cell(region, second_offset, second, value).cell,
        ),
{
    let one = chip.bound_table(before, region, first_offset, first, value);
    let two = chip.bound_table(between, region, second_offset, second, value);
    let c1 = chip.bound_cell(region, first_offset, first, value).cell;
    let c2 = chip.bound_cell(region, second_offset, second, value).cell;
    let n1 = one.copies.len() - 1;
    let n2 = two.copies.len() - 1;
    assert(one.copies[n1] == (c1, value.cell));
    assert(between.copies[n1] == one.copies[n1]);
    assert(two.copies[n1] == (c1, value.cell));
    assert(two.copies[n2] == (c2, value.cell));
    assert forall|values: Map<Cell, int>| #[trigger] two.respected_by(values) implies values[c1]
        == values[value.cell] && values[c2] == values[value.cell] by {
        assert(values[two.copies[n1].0] == values[two.copies[n1].1]);
        assert(values[two.copies[n2].0] == values[two.copies[n2].1]);
    }
}

impl RMD160Chip {
    /// A chip that works on the columns of `config`.
    pub fn new(config: RMD160Config) -> (chip: RMD160Chip)
        ensures
            chip.columns() == config,
    {
        RMD160Chip { config }
    }

    /// The columns that the chip works on.
    pub closed spec fn columns(&self) -> RMD160Config {
        self.config
    }

    /// The columns that the chip works on.
    pub fn config(&self) -> (config: &RMD160Config)
        ensures
            *config == self.columns(),
    {
        &self.config
    }

    /// Where `gate_cell` falls in `region` when its window starts at
    /// `start_offset`.
    pub open spec fn place(&self, region: usize, start_offset: usize, gate_cell: GateCell) -> Cell {
        Cell {
            region,
            kind: gate_cell.kind(),
            column: if gate_cell.kind() == ADVICE {
                self.columns().witness@[gate_cell.col() as int]
            } else {
                self.columns().fixed@[gate_cell.col() as int]
            },
            row: (start_offset + gate_cell.row()) as usize,
        }
    }

    /// The entry that writing `value` at `gate_cell` adds to the record.
    pub open spec fn assignment(
        &self,
        start_offset: usize,
        gate_cell: GateCell,
        value: u64,
    ) -> Assignment {
        if gate_cell.kind() == ADVICE {
            Assignment::Advice {
                column: self.columns().witness@[gate_cell.col() as int],
                row: (start_offset + gate_cell.row()) as usize,
                value,
            }
        } else {
            Assignment::Fixed {
                column: self.columns().fixed@[gate_cell.col() as int],
                row: (start_offset + gate_cell.row()) as usize,
                value,
            }
        }
    }

    /// `gate_cell` is an advice or fixed cell of the configuration, and fits
    /// into the rows from `start_offset` on.
    pub open spec fn writable(start_offset: usize, gate_cell: GateCell) -> bool {
        &&& gate_cell.kind() == ADVICE && gate_cell.col() < 7 || gate_cell.kind() == FIXED
            && gate_cell.col() < 1
        &&& start_offset + gate_cell.row() <= usize::MAX
    }

    /// Writes `value` at `gate_cell` of the window that starts at
    /// `start_offset`.
    pub fn assign_cell(
        &self,
        region: &mut Region,
        start_offset: usize,
        gate_cell: GateCell,
        value: u64,
    ) -> (assigned: AssignedCell)
        requires
            Self::writable(start_offset, gate_cell),
        ensures
            assigned.cell == self.place(old(region).index, start_offset, gate_cell),
            assigned.value == value,
            final(region).index == old(region).index,
            final(region)@ == old(region)@.apply(self.assignment(start_offset, gate_cell, value)),
    {
        let cell = gate_cell.cell;
        if cell[0] == 0 {
            region.assign_advice(self.config.witness[cell[1]], start_offset + cell[2], value)
        } else {
            region.assign_fixed(self.config.fixed[cell[1]], start_offset + cell[2], value)
        }
    }

    /// Switches the selector that `gate_cell` names on, `gate_cell.row()` rows
    /// below `start_offset`.
    pub fn enable_selector(&self, region: &mut Region, start_offset: usize, gate_cell: GateCell)
        requires
            gate_cell.kind() == SELECTOR,
            gate_cell.col() < 2,
            start_offset + gate_cell.row() <= usize::MAX,
        ensures
            final(region).index == old(region).index,
            final(region)@ == old(region)@.apply(
                Assignment::Enable {
                    selector: self.columns().selector@[gate_cell.col() as int],
                    row: (start_offset + gate_cell.row()) as usize,
                },
            ),
    {
        region.enable_selector(
            self.config.selector[gate_cell.cell[1]],
            start_offset + gate_cell.cell[2],
        );
    }

    /// The cell that binding `value` at `cell` yields: the new place, the
    /// old value.
    pub open spec fn bound_cell(
        &self,
        region: usize,
        start_offset: usize,
        cell: GateCell,
        value: AssignedCell,
    ) -> AssignedCell {
        AssignedCell { cell: self.place(region, start_offset, cell), value: value.value }
    }

    /// The table after binding `value` at `cell`: the value is written, and
    /// the new cell is tied to the one that the value came from.
    pub open spec fn bound_table(
        &self,
        before: Table,
        region: usize,
        start_offset: usize,
        cell: GateCell,
        value: AssignedCell,
    ) -> Table {
        before.apply(self.assignment(start_offset, cell, value.value)).apply(
            Assignment::Equal {
                left: self.place(region, start_offset, cell),
                right: value.cell,
            },
        )
    }

    /// Binds a committed value into the window: writes it at `cell` and ties
    /// the new cell to the one that the value came from.
    pub fn bind_cell(
        &self,
        region: &mut Region,
        start_offset: usize,
        cell: GateCell,
        value: &AssignedCell,
    ) -> (bound: AssignedCell)
        requires
            Self::writable(start_offset, cell),
        ensures
            bound == self.bound_cell(old(region).index, start_offset, cell, *value),
            final(region).index == old(region).index,
            final(region)@ == self.bound_table(
                old(region)@,
                old(region).index,
                start_offset,
                cell,
                *value,
            ),
    {
        let f: u64 = value.value;
        let bound = self.assign_cell(region, start_offset, cell, f);
        region.constrain_equal(bound.cell, value.cell);
        bound
    }

    /// The message cells in the order in which a round takes them.
    pub fn rotate_inputs(&self, inputs: &[AssignedCell; 16], round_shift: [usize; 16]) -> (rotated:
        [AssignedCell; 16])
        requires
            forall|i: int| 0 <= i < 16 ==> round_shift@[i] < 16,
        ensures
            forall|i: int| 0 <= i < 16 ==> rotated@[i] == inputs@[round_shift@[i] as int],
    {
        [
            inputs[round_shift[0]],
            inputs[round_shift[1]],
            inputs[round_shift[2]],
            inputs[round_shift[3]],
            inputs[round_shift[4]],
            inputs[round_shift[5]],
            inputs[round_shift[6]],
            inputs[round_shift[7]],
            inputs[round_shift[8]],
            inputs[round_shift[9]],
            inputs[round_shift[10]],
            inputs[round_shift[11]],
            inputs[round_shift[12]],
            inputs[round_shift[13]],
            inputs[round_shift[14]],
            inputs[round_shift[15]],
        ]
    }
}

} // verus!
