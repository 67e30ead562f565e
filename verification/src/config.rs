//! The columns of the circuit and the equations of its two gates.

use crate::gate::{GateCell, ADVICE, FIXED};
use crate::plonk::Expression;
use crate::table::{Cell, Table};
use vstd::prelude::*;

verus! {

/// The columns that the circuit works on.
#[derive(Clone, Copy, Debug)]
pub struct RMD160Config {
    /// The seven advice columns.
    pub witness: [usize; 7],
    /// The two selectors: the first enables a round step, the second the
    /// final merge.
    pub selector: [usize; 2],
    /// The fixed column.
    pub fixed: [usize; 1],
}

impl RMD160Config {
    /// No two advice columns and no two selectors coincide.
    pub open spec fn wf(&self) -> bool {
        &&& forall|i: int, j: int|
            0 <= i < 7 && 0 <= j < 7 && i != j ==> self.witness@[i] != self.witness@[j]
        &&& self.selector@[0] != self.selector@[1]
    }

    /// `cell` names a column that the configuration has.
    pub open spec fn has(&self, cell: GateCell) -> bool {
        if cell.kind() == ADVICE {
            cell.col() < 7
        } else if cell.kind() == FIXED {
            cell.col() < 1
        } else {
            cell.col() < 2
        }
    }

    /// The polynomial that reads `cell`.
    pub open spec fn query(&self, cell: GateCell) -> Expression {
        if cell.kind() == ADVICE {
            Expression::Advice { column: self.witness@[cell.col() as int], rotation: cell.row() }
        } else if cell.kind() == FIXED {
            Expression::Fixed { column: self.fixed@[cell.col() as int], rotation: cell.row() }
        } else {
            Expression::Selector(self.selector@[cell.col() as int])
        }
    }

    /// The advice value in column `col` of the configuration, `offset` rows
    /// into the window that starts at `row`.
    pub open spec fn adv(&self, table: Table, row: int, col: int, offset: int) -> int {
        table.advice_at(self.witness@[col] as int, row + offset)
    }

    /// The fixed value `offset` rows into the window that starts at `row`.
    pub open spec fn fix(&self, table: Table, row: int, offset: int) -> int {
        table.fixed_at(self.fixed@[0] as int, row + offset)
    }

    /// Selector `s` of the configuration on `row`, as zero or one.
    pub open spec fn sel(&self, table: Table, row: int, s: int) -> int {
        table.selector_at(self.selector@[s] as int, row)
    }

    /// The advice cell in column `col` of the configuration, `offset` rows
    /// into the window that starts at `row`, has been assigned.
    pub open spec fn has_adv(&self, table: Table, row: int, col: int, offset: int) -> bool {
        table.advice.dom().contains((self.witness@[col] as int, row + offset))
    }

    /// The fixed cell `offset` rows into the window that starts at `row` has
    /// been assigned.
    pub open spec fn has_fix(&self, table: Table, row: int, offset: int) -> bool {
        table.fixed.dom().contains((self.fixed@[0] as int, row + offset))
    }

    /// The advice cell in column `col` of the configuration, `offset` rows
    /// into the window that starts at `start` of region `region`.
    pub open spec fn advice_cell(&self, region: usize, start: usize, col: int, offset: int) -> Cell {
        Cell { region, kind: ADVICE, column: self.witness@[col], row: (start + offset) as usize }
    }

    /// Which advice column of the configuration `column` is, or -1 if it is
    /// none of them.
    pub open spec fn column_index(&self, column: int) -> int {
        if column == self.witness@[0] {
            0
        } else if column == self.witness@[1] {
            1
        } else if column == self.witness@[2] {
            2
        } else if column == self.witness@[3] {
            3
        } else if column == self.witness@[4] {
            4
        } else if column == self.witness@[5] {
            5
        } else if column == self.witness@[6] {
            6
        } else {
            -1
        }
    }

    /// The advice cells of a window as a map: the window starts at row
    /// `start`, `slots` names its cells by column of the configuration and
    /// row offset, and `cells` gives the value of each.
    pub open spec fn window(
        &self,
        start: int,
        slots: Set<(int, int)>,
        cells: spec_fn(int, int) -> int,
    ) -> Map<(int, int), int> {
        Map::new(
            |k: (int, int)| slots.contains((self.column_index(k.0), k.1 - start)),
            |k: (int, int)| cells(self.column_index(k.0), k.1 - start),
        )
    }

    /// The word that the four limbs in column `col` stand for.
    pub open spec fn limbs(&self, table: Table, row: int, col: int) -> int {
        self.adv(table, row, col, 1) + self.adv(table, row, col, 2) * 0x100 + self.adv(
            table,
            row,
            col,
            3,
        ) * 0x1_0000 + self.adv(table, row, col, 4) * 0x100_0000
    }

    /// Whether no two advice columns and no two selectors coincide.
    pub fn is_valid(&self) -> (ok: bool)
        ensures
            ok == self.wf(),
    {
        if self.selector[0] == self.selector[1] {
            return false;
        }
        let mut i: usize = 0;
        while i < 7
            invariant
                i <= 7,
                forall|a: int, b: int|
                    0 <= a < i && 0 <= b < 7 && a != b ==> self.witness@[a] != self.witness@[b],
            decreases 7 - i,
        {
            let mut j: usize = 0;
            while j < 7
                invariant
                    i < 7,
                    j <= 7,
                    forall|a: int, b: int|
                        0 <= a < i && 0 <= b < 7 && a != b ==> self.witness@[a]
                            != self.witness@[b],
                    forall|b: int|
                        0 <= b < j && b != i ==> self.witness@[i as int] != self.witness@[b],
                decreases 7 - j,
            {
                if i != j && self.witness[i] == self.witness[j] {
                    return false;
                }
                j += 1;
            }
            i += 1;
        }
        true
    }

    /// The polynomial that reads `gate_cell`: an advice or fixed cell at the
    /// cell's row offset, or a selector on the row itself.
    pub fn get_expr(&self, gate_cell: GateCell) -> (e: Expression)
        requires
            self.has(gate_cell),
        ensures
            e == self.query(gate_cell),
    {
        let cell = gate_cell.cell;
        if cell[0] == 0 {
            Expression::Advice { column: self.witness[cell[1]], rotation: cell[2] }
        } else if cell[0] == 1 {
            Expression::Fixed { column: self.fixed[cell[1]], rotation: cell[2] }
        } else {
            Expression::Selector(self.selector[cell[1]])
        }
    }
}

/// The first bounded sum of a round step: `wb` is `a + r + x + offset` with
/// `r` given by its limbs, and `w0` with carry `wc` recombines to `wb`.
/// Nothing here holds `w0` to 32 bits or the carry to `0..=3`: the
/// surrounding circuit owes both range checks.
pub open spec fn sum_with_bound(config: RMD160Config, table: Table, row: int) -> bool {
    let a = config.adv(table, row, 0, 0);
    let w0 = config.adv(table, row, 0, 1);
    let wb = config.adv(table, row, 0, 2);
    let wc = config.adv(table, row, 0, 3);
    let x = config.adv(table, row, 4, 0);
    let r = config.limbs(table, row, 4);
    let offset = config.fix(table, row, 0);
    &&& wb == r + a + x + offset
    &&& w0 + wc * 0x1_0000_0000 == wb
}

/// The second bounded sum of a round step: `w2b` is `w1 + e`, the carry
/// `w2c` is zero or one, and `a_next` with carry `w2c` recombines to `w2b`.
/// That `a_next` has 32 bits is a range check which the surrounding circuit
/// owes.
pub open spec fn sum_with_rotated(config: RMD160Config, table: Table, row: int) -> bool {
    let w1 = config.adv(table, row, 0, 4);
    let e = config.adv(table, row, 5, 0);
    let a_next = config.adv(table, row, 5, 3);
    let w2b = config.adv(table, row, 6, 3);
    let w2c = config.adv(table, row, 6, 4);
    &&& w2b == w1 + e
    &&& (w2c == 0 || w2c == 1)
    &&& a_next + w2c * 0x1_0000_0000 == w2b
}

/// The limb decomposition of a round step: `b`, `c` and `d` are the
/// weighted sums of their limbs.
pub open spec fn limbs_sum(config: RMD160Config, table: Table, row: int) -> bool {
    &&& config.limbs(table, row, 1) == config.adv(table, row, 1, 0)
    &&& config.limbs(table, row, 2) == config.adv(table, row, 2, 0)
    &&& config.limbs(table, row, 3) == config.adv(table, row, 3, 0)
}

/// The fixed rotation of a round step: `c` cut at bit 22 and swapped is
/// `c_next`. That the upper part has 10 bits and the lower part 22 is a
/// range check which the surrounding circuit owes.
pub open spec fn c_rotate(config: RMD160Config, table: Table, row: int) -> bool {
    let c = config.adv(table, row, 2, 0);
    let c_next = config.adv(table, row, 6, 0);
    let w4h = config.adv(table, row, 6, 1);
    let w4l = config.adv(table, row, 6, 2);
    &&& w4h * 0x40_0000 + w4l == c
    &&& w4l * 0x400 + w4h == c_next
}

/// The variable rotation of a round step: `w0` cut at the boundary that the
/// fixed cells give and swapped is `w1`. For a rotation by `s` the fixed
/// cells hold `2^s` and `2^(32 - s)`; that the upper part has `s` bits and
/// the lower part `32 - s` is a range check which the surrounding circuit
/// owes.
pub open spec fn w0_rotate(config: RMD160Config, table: Table, row: int) -> bool {
    let w0 = config.adv(table, row, 0, 1);
    let w1 = config.adv(table, row, 0, 4);
    let w1h = config.adv(table, row, 5, 1);
    let w1l = config.adv(table, row, 5, 2);
    let shift = config.fix(table, row, 1);
    let shift2 = config.fix(table, row, 2);
    &&& w1h * shift2 + w1l == w0
    &&& w1l * shift + w1h == w1
}

/// All equations of a round step on the window that starts at `row`.
pub open spec fn round_equations(config: RMD160Config, table: Table, row: int) -> bool {
    &&& sum_with_bound(config, table, row)
    &&& sum_with_rotated(config, table, row)
    &&& limbs_sum(config, table, row)
    &&& c_rotate(config, table, row)
    &&& w0_rotate(config, table, row)
}

/// Every cell of the round window that starts at `row` has been assigned.
pub open spec fn round_assigned(config: RMD160Config, table: Table, row: int) -> bool {
    &&& forall|c: int, o: int|
        0 <= c < 7 && 0 <= o < 5 && !(c == 5 && o == 4) ==> #[trigger] config.has_adv(
            table,
            row,
            c,
            o,
        )
    &&& forall|o: int| 0 <= o < 3 ==> #[trigger] config.has_fix(table, row, o)
}

/// Row `i` of the final merge: `sum` is the three words of the row added
/// up, and the merged word with its carry recombines to `sum`. The merged
/// word of row `i` sits in the row above, the first one in the last row.
/// That the merged word has 32 bits, and with it that the carry is in
/// `0..=2`, is a range check which the surrounding circuit owes.
pub open spec fn merge_row(config: RMD160Config, table: Table, row: int, i: int) -> bool {
    let initial = config.adv(table, row, 0, i);
    let left = config.adv(table, row, 1, i);
    let right = config.adv(table, row, 2, i);
    let sum = config.adv(table, row, 3, i);
    let carry = config.adv(table, row, 4, i);
    let merged = config.adv(table, row, 5, (i + 4) % 5);
    &&& sum == initial + left + right
    &&& merged + carry * 0x1_0000_0000 == sum
}

/// All equations of the final merge on the window that starts at `row`.
pub open spec fn compress_equations(config: RMD160Config, table: Table, row: int) -> bool {
    &&& merge_row(config, table, row, 0)
    &&& merge_row(config, table, row, 1)
    &&& merge_row(config, table, row, 2)
    &&& merge_row(config, table, row, 3)
    &&& merge_row(config, table, row, 4)
}

/// Every cell of the merge window that starts at `row` has been assigned.
pub open spec fn compress_assigned(config: RMD160Config, table: Table, row: int) -> bool {
    forall|c: int, o: int|
        0 <= c < 6 && 0 <= o < 5 ==> #[trigger] config.has_adv(table, row, c, o)
}

/// The slots of a round window: five rows of seven columns, but for the last
/// row of the sixth column.
pub open spec fn round_slots() -> Set<(int, int)> {
    Set::new(|s: (int, int)| 0 <= s.0 < 7 && 0 <= s.1 < 5 && !(s.0 == 5 && s.1 == 4))
}

/// The slots of a merge window: five rows of six columns.
pub open spec fn compress_slots() -> Set<(int, int)> {
    Set::new(|s: (int, int)| 0 <= s.0 < 6 && 0 <= s.1 < 5)
}

/// Writing one more cell of a window extends the window by one slot.
pub proof fn lemma_fill(
    config: RMD160Config,
    base: Map<(int, int), int>,
    before: Map<(int, int), int>,
    after: Map<(int, int), int>,
    start: int,
    slots: Set<(int, int)>,
    cells: spec_fn(int, int) -> int,
    col: int,
    offset: int,
)
    requires
        config.wf(),
        0 <= col < 7,
        before == base.union_prefer_right(config.window(start, slots, cells)),
        after == before.insert((config.witness@[col] as int, start + offset), cells(col, offset)),
    ensures
        after == base.union_prefer_right(
            config.window(start, slots.insert((col, offset)), cells),
        ),
{
    assert(config.column_index(config.witness@[col] as int) == col);
    assert(after =~= base.union_prefer_right(
        config.window(start, slots.insert((col, offset)), cells),
    ));
}

/// Every cell of a window reads as the window says.
pub proof fn lemma_window_cells(
    config: RMD160Config,
    base: Table,
    after: Table,
    start: int,
    slots: Set<(int, int)>,
    cells: spec_fn(int, int) -> int,
)
    requires
        config.wf(),
        after.advice == base.advice.union_prefer_right(config.window(start, slots, cells)),
    ensures
        forall|col: int, offset: int|
            0 <= col < 7 && slots.contains((col, offset)) ==> #[trigger] config.has_adv(
                after,
                start,
                col,
                offset,
            ),
        forall|col: int, offset: int|
            0 <= col < 7 && slots.contains((col, offset)) ==> #[trigger] config.adv(
                after,
                start,
                col,
                offset,
            ) == cells(col, offset),
{
    assert forall|col: int, offset: int|
        0 <= col < 7 && slots.contains((col, offset)) implies #[trigger] config.has_adv(
        after,
        start,
        col,
        offset,
    ) && config.adv(after, start, col, offset) == cells(col, offset) by {
        let key = (config.witness@[col] as int, start + offset);
        assert(config.column_index(key.0) == col);
        assert(config.window(start, slots, cells).dom().contains(key));
    }
}

/// Outside the rows of a window, nothing changes.
pub proof fn lemma_window_frame(
    config: RMD160Config,
    base: Table,
    after: Table,
    start: int,
    slots: Set<(int, int)>,
    cells: spec_fn(int, int) -> int,
)
    requires
        forall|c: int, o: int| slots.contains((c, o)) ==> 0 <= o < 5,
        after.advice == base.advice.union_prefer_right(config.window(start, slots, cells)),
    ensures
        forall|c: int, r: int|
            r < start || r >= start + 5 ==> (#[trigger] after.advice.dom().contains((c, r))
                <==> base.advice.dom().contains((c, r))),
        forall|c: int, r: int|
            (r < start || r >= start + 5) && #[trigger] base.advice.dom().contains((c, r))
                ==> after.advice[(c, r)] == base.advice[(c, r)],
{
    assert forall|c: int, r: int| r < start || r >= start + 5 implies !config.window(
        start,
        slots,
        cells,
    ).dom().contains((c, r)) by {}
}

/// One more advice cell of a window has been written: `after` differs from
/// `before` in that cell alone, and the window grows by its slot.
pub proof fn fill_step(
    config: RMD160Config,
    base: Table,
    before: Table,
    after: Table,
    start: int,
    slots: Set<(int, int)>,
    cells: spec_fn(int, int) -> int,
    col: int,
    offset: int,
) -> (filled: Set<(int, int)>)
    requires
        config.wf(),
        0 <= col < 7,
        before.advice == base.advice.union_prefer_right(config.window(start, slots, cells)),
        after.advice == before.advice.insert(
            (config.witness@[col] as int, start + offset),
            cells(col, offset),
        ),
    ensures
        filled == slots.insert((col, offset)),
        after.advice == base.advice.union_prefer_right(config.window(start, filled, cells)),
{
    lemma_fill(config, base.advice, before.advice, after.advice, start, slots, cells, col, offset);
    slots.insert((col, offset))
}

/// Spells out, cell by cell, what it means that a round window is assigned.
pub proof fn lemma_round_assigned(config: RMD160Config, table: Table, row: int)
    requires
        round_assigned(config, table, row),
    ensures
        config.has_adv(table, row, 0, 0),
        config.has_adv(table, row, 0, 1),
        config.has_adv(table, row, 0, 2),
        config.has_adv(table, row, 0, 3),
        config.has_adv(table, row, 0, 4),
        config.has_adv(table, row, 1, 0),
        config.has_adv(table, row, 1, 1),
        config.has_adv(table, row, 1, 2),
        config.has_adv(table, row, 1, 3),
        config.has_adv(table, row, 1, 4),
        config.has_adv(table, row, 2, 0),
        config.has_adv(table, row, 2, 1),
        config.has_adv(table, row, 2, 2),
        config.has_adv(table, row, 2, 3),
        config.has_adv(table, row, 2, 4),
        config.has_adv(table, row, 3, 0),
        config.has_adv(table, row, 3, 1),
        config.has_adv(table, row, 3, 2),
        config.has_adv(table, row, 3, 3),
        config.has_adv(table, row, 3, 4),
        config.has_adv(table, row, 4, 0),
        config.has_adv(table, row, 4, 1),
        config.has_adv(table, row, 4, 2),
        config.has_adv(table, row, 4, 3),
        config.has_adv(table, row, 4, 4),
        config.has_adv(table, row, 5, 0),
        config.has_adv(table, row, 5, 1),
        config.has_adv(table, row, 5, 2),
        config.has_adv(table, row, 5, 3),
        config.has_adv(table, row, 6, 0),
        config.has_adv(table, row, 6, 1),
        config.has_adv(table, row, 6, 2),
        config.has_adv(table, row, 6, 3),
        config.has_adv(table, row, 6, 4),
        config.has_fix(table, row, 0),
        config.has_fix(table, row, 1),
        config.has_fix(table, row, 2),
{
}

} // verus!
