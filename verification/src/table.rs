//! The rows that a circuit fills: cells, copy constraints and enabled flags.
//!
//! A region records every assignment in the order in which it was made. The
//! record is what a proving backend is fed; its mathematical content is a
//! table that maps each cell to the value last written to it.

use crate::gate::{ADVICE, FIXED};
use vstd::prelude::*;

verus! {

/// The place of one value: the region that owns it, its column and its row.
#[derive(Clone, Copy, Debug, PartialEq, Eq, Hash, Structural)]
pub struct Cell {
    /// The region that the cell belongs to.
    pub region: usize,
    /// `ADVICE` or `FIXED`.
    pub kind: usize,
    /// The column, counted within its kind.
    pub column: usize,
    /// The row.
    pub row: usize,
}

/// A cell together with the value that was committed to it.
#[derive(Clone, Copy, Debug, PartialEq, Eq, Structural)]
pub struct AssignedCell {
    /// Where the value sits.
    pub cell: Cell,
    /// The value, as the integer that the field element stands for.
    pub value: u64,
}

/// The words that a list of cells holds.
pub open spec fn values_of(cells: Seq<AssignedCell>) -> Seq<u32> {
    Seq::new(cells.len(), |i: int| cells[i].value as u32)
}

/// Every cell of the list holds a word.
pub open spec fn are_words(cells: Seq<AssignedCell>) -> bool {
    forall|i: int| 0 <= i < cells.len() ==> (#[trigger] cells[i]).value <= u32::MAX
}

/// One entry of a region's record.
#[derive(Clone, Copy, Debug, PartialEq, Eq, Structural)]
pub enum Assignment {
    /// `value` was written to an advice cell.
    Advice { column: usize, row: usize, value: u64 },
    /// `value` was written to a fixed cell.
    Fixed { column: usize, row: usize, value: u64 },
    /// A selector was switched on for a row.
    Enable { selector: usize, row: usize },
    /// Two cells were declared equal.
    Equal { left: Cell, right: Cell },
}

/// What a region holds: the value of each assigned cell, the rows on which
/// each selector is on, and the copy constraints in the order of their
/// making.
pub struct Table {
    /// The region that the table belongs to.
    pub index: usize,
    /// Advice values by column and row.
    pub advice: Map<(int, int), int>,
    /// Fixed values by column and row.
    pub fixed: Map<(int, int), int>,
    /// The pairs of selector and row that are switched on.
    pub enabled: Set<(int, int)>,
    /// The pairs of cells that were declared equal.
    pub copies: Seq<(Cell, Cell)>,
}

impl Table {
    /// The table of a region in which nothing has happened.
    pub open spec fn empty(index: usize) -> Table {
        Table {
            index,
            advice: Map::empty(),
            fixed: Map::empty(),
            enabled: Set::empty(),
            copies: Seq::empty(),
        }
    }

    /// The table after one more entry of the record.
    pub open spec fn apply(self, entry: Assignment) -> Table {
        match entry {
            Assignment::Advice { column, row, value } => Table {
                advice: self.advice.insert((column as int, row as int), value as int),
                ..self
            },
            Assignment::Fixed { column, row, value } => Table {
                fixed: self.fixed.insert((column as int, row as int), value as int),
                ..self
            },
            Assignment::Enable { selector, row } => Table {
                enabled: self.enabled.insert((selector as int, row as int)),
                ..self
            },
            Assignment::Equal { left, right } => Table {
                copies: self.copies.push((left, right)),
                ..self
            },
        }
    }

    /// The table that a record builds up, entry by entry.
    pub open spec fn of(index: usize, record: Seq<Assignment>) -> Table
        decreases record.len(),
    {
        if record.len() == 0 {
            Table::empty(index)
        } else {
            Table::of(index, record.drop_last()).apply(record.last())
        }
    }

    /// The value of an advice cell; an unassigned cell reads as zero.
    pub open spec fn advice_at(self, column: int, row: int) -> int {
        if self.advice.dom().contains((column, row)) {
            self.advice[(column, row)]
        } else {
            0
        }
    }

    /// The value of a fixed cell; an unassigned cell reads as zero.
    pub open spec fn fixed_at(self, column: int, row: int) -> int {
        if self.fixed.dom().contains((column, row)) {
            self.fixed[(column, row)]
        } else {
            0
        }
    }

    /// A selector as a value: one on the rows where it is on, zero elsewhere.
    pub open spec fn selector_at(self, selector: int, row: int) -> int {
        if self.enabled.contains((selector, row)) {
            1
        } else {
            0
        }
    }

    /// `cell` belongs to this table and holds `value`.
    pub open spec fn holds(self, cell: Cell, value: int) -> bool {
        &&& cell.region == self.index
        &&& cell.kind == ADVICE ==> self.advice.dom().contains((cell.column as int, cell.row as int))
            && self.advice[(cell.column as int, cell.row as int)] == value
        &&& cell.kind == FIXED ==> self.fixed.dom().contains((cell.column as int, cell.row as int))
            && self.fixed[(cell.column as int, cell.row as int)] == value
        &&& cell.kind == ADVICE || cell.kind == FIXED
    }

    /// `self` and `earlier` hold the same advice and fixed cells, with the
    /// same values, on every row that is not in `from..to`.
    pub open spec fn unchanged_outside(self, earlier: Table, from: int, to: int) -> bool {
        &&& forall|c: int, r: int|
            r < from || r >= to ==> (#[trigger] self.advice.dom().contains((c, r))
                <==> earlier.advice.dom().contains((c, r)))
        &&& forall|c: int, r: int|
            (r < from || r >= to) && #[trigger] earlier.advice.dom().contains((c, r))
                ==> self.advice[(c, r)] == earlier.advice[(c, r)]
        &&& forall|c: int, r: int|
            r < from || r >= to ==> (#[trigger] self.fixed.dom().contains((c, r))
                <==> earlier.fixed.dom().contains((c, r)))
        &&& forall|c: int, r: int|
            (r < from || r >= to) && #[trigger] earlier.fixed.dom().contains((c, r))
                ==> self.fixed[(c, r)] == earlier.fixed[(c, r)]
    }

    /// Every assignment of values that meets the copy constraints of the
    /// table gives `left` and `right` the same value.
    pub open spec fn ties(self, left: Cell, right: Cell) -> bool {
        forall|values: Map<Cell, int>| #[trigger] self.respected_by(values) ==> values[left] == values[right]
    }

    /// `values` gives the two cells of every copy constraint the same value.
    pub open spec fn respected_by(self, values: Map<Cell, int>) -> bool {
        forall|k: int|
            0 <= k < self.copies.len() ==> values[(#[trigger] self.copies[k]).0]
                == values[self.copies[k].1]
    }

    /// `values` gives every cell of the table the value that the table
    /// holds for it.
    pub open spec fn extended_by(self, values: Map<Cell, int>) -> bool {
        forall|cell: Cell, v: int| #[trigger] self.holds(cell, v) ==> values[cell] == v
    }

    /// Every cell of `self` is a cell of `later`, with the same value.
    pub open spec fn grows_into(self, later: Table) -> bool {
        forall|cell: Cell, v: int| #[trigger] self.holds(cell, v) ==> later.holds(cell, v)
    }

    /// Nothing has been written at or below `row`, and no selector is on
    /// there.
    pub open spec fn untouched_from(self, row: int) -> bool {
        &&& forall|c: int, r: int| r >= row ==> !self.advice.dom().contains((c, r))
        &&& forall|c: int, r: int| r >= row ==> !self.fixed.dom().contains((c, r))
        &&& forall|s: int, r: int| r >= row ==> !self.enabled.contains((s, r))
    }
}

/// A block of rows under construction.
pub struct Region {
    /// The number by which cells name this region.
    pub index: usize,
    /// Every assignment made so far, oldest first.
    pub record: Vec<Assignment>,
}

impl View for Region {
    type V = Table;

    closed spec fn view(&self) -> Table {
        Table::of(self.index, self.record@)
    }
}

impl Region {
    /// A region in which nothing has happened.
    pub fn new(index: usize) -> (region: Region)
        ensures
            region@ == Table::empty(index),
            region.index == index,
            region.record@.len() == 0,
    {
        Region { index, record: Vec::new() }
    }

    /// The table of a region is what its record builds up, and carries the
    /// region's number.
    pub proof fn lemma_index(&self)
        ensures
            self@ == Table::of(self.index, self.record@),
            self@.index == self.index,
        decreases self.record@.len(),
    {
        Self::lemma_of_index(self.index, self.record@);
    }

    proof fn lemma_of_index(index: usize, record: Seq<Assignment>)
        ensures
            Table::of(index, record).index == index,
        decreases record.len(),
    {
        if record.len() > 0 {
            Self::lemma_of_index(index, record.drop_last());
        }
    }

    fn log(&mut self, entry: Assignment)
        ensures
            final(self)@ == old(self)@.apply(entry),
            final(self).index == old(self).index,
            final(self).record@ == old(self).record@.push(entry),
    {
        self.record.push(entry);
        assert(self.record@.drop_last() == old(self).record@);
    }

    /// Writes `value` to an advice cell and hands back the cell.
    pub fn assign_advice(&mut self, column: usize, row: usize, value: u64) -> (assigned:
        AssignedCell)
        ensures
            final(self)@ == old(self)@.apply(Assignment::Advice { column, row, value }),
            final(self).index == old(self).index,
            final(self).record@ == old(self).record@.push(Assignment::Advice { column, row, value }),
            assigned == (AssignedCell {
                cell: Cell { region: old(self).index, kind: ADVICE, column, row },
                value,
            }),
    {
        self.log(Assignment::Advice { column, row, value });
        AssignedCell { cell: Cell { region: self.index, kind: ADVICE, column, row }, value }
    }

    /// Writes `value` to a fixed cell and hands back the cell.
    pub fn assign_fixed(&mut self, column: usize, row: usize, value: u64) -> (assigned:
        AssignedCell)
        ensures
            final(self)@ == old(self)@.apply(Assignment::Fixed { column, row, value }),
            final(self).index == old(self).index,
            final(self).record@ == old(self).record@.push(Assignment::Fixed { column, row, value }),
            assigned == (AssignedCell {
                cell: Cell { region: old(self).index, kind: FIXED, column, row },
                value,
            }),
    {
        self.log(Assignment::Fixed { column, row, value });
        AssignedCell { cell: Cell { region: self.index, kind: FIXED, column, row }, value }
    }

    /// Switches `selector` on for `row`.
    pub fn enable_selector(&mut self, selector: usize, row: usize)
        ensures
            final(self)@ == old(self)@.apply(Assignment::Enable { selector, row }),
            final(self).index == old(self).index,
            final(self).record@ == old(self).record@.push(Assignment::Enable { selector, row }),
    {
        self.log(Assignment::Enable { selector, row });
    }

    /// Declares two cells equal.
    pub fn constrain_equal(&mut self, left: Cell, right: Cell)
        ensures
            final(self)@ == old(self)@.apply(Assignment::Equal { left, right }),
            final(self).index == old(self).index,
            final(self).record@ == old(self).record@.push(Assignment::Equal { left, right }),
    {
        self.log(Assignment::Equal { left, right });
    }
}

} // verus!
