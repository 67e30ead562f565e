//! The final merge: the window that it fills, and why the window meets the
//! equations of the merge.

use crate::chip::RMD160Chip;
use crate::config::{
    compress_assigned, compress_equations, compress_slots, fill_step, lemma_window_cells,
    lemma_window_frame, merge_row,
};
use crate::gate::{CompressGate, GateCell, ADVICE};
use crate::hash::merge;
use crate::meaning::compress_ranges;
use crate::table::{are_words, values_of, AssignedCell, Cell, Region, Table};
use crate::word::{carry_between, carry_of, word_of};
use vstd::prelude::*;

verus! {

/// The value of the advice cell in column `col` of the configuration,
/// `offset` rows into the window of the final merge. Row `i` holds word `i`
/// of the initial state, word `i + 1` of the left line, word `i + 2` of the
/// right line, their sum and its carry; the merged word of row `i` sits one
/// row up, the first one in the last row.
pub open spec fn compress_cell(
    initial: Seq<u32>,
    left: Seq<u32>,
    right: Seq<u32>,
    col: int,
    offset: int,
) -> int {
    if col == 0 {
        initial[offset] as int
    } else if col == 1 {
        left[(offset + 1) % 5] as int
    } else if col == 2 {
        right[(offset + 2) % 5] as int
    } else if col == 3 {
        initial[offset] + left[(offset + 1) % 5] + right[(offset + 2) % 5]
    } else if col == 4 {
        carry_of(initial[offset] + left[(offset + 1) % 5] + right[(offset + 2) % 5])
    } else {
        merge(initial, left, right)[(offset + 1) % 5] as int
    }
}

/// The advice cells of the final merge, by column and row offset.
pub open spec fn compress_cells(initial: Seq<u32>, left: Seq<u32>, right: Seq<u32>) -> spec_fn(
    int,
    int,
) -> int {
    |col: int, offset: int| compress_cell(initial, left, right, col, offset)
}

impl RMD160Chip {
    /// The copy constraints of the final merge, in the order of their
    /// making: the words of the initial state, of the left line and of the
    /// right line, each tied to where it came from.
    pub open spec fn compress_copies(
        &self,
        region: usize,
        start_offset: usize,
        r0: Seq<AssignedCell>,
        r1: Seq<AssignedCell>,
        r2: Seq<AssignedCell>,
    ) -> Seq<(Cell, Cell)> {
        let config = self.columns();
        seq![
            (config.advice_cell(region, start_offset, 0, 0), r0[0].cell),
            (config.advice_cell(region, start_offset, 0, 1), r0[1].cell),
            (config.advice_cell(region, start_offset, 0, 2), r0[2].cell),
            (config.advice_cell(region, start_offset, 0, 3), r0[3].cell),
            (config.advice_cell(region, start_offset, 0, 4), r0[4].cell),
            (config.advice_cell(region, start_offset, 1, 4), r1[0].cell),
            (config.advice_cell(region, start_offset, 1, 0), r1[1].cell),
            (config.advice_cell(region, start_offset, 1, 1), r1[2].cell),
            (config.advice_cell(region, start_offset, 1, 2), r1[3].cell),
            (config.advice_cell(region, start_offset, 1, 3), r1[4].cell),
            (config.advice_cell(region, start_offset, 2, 3), r2[0].cell),
            (config.advice_cell(region, start_offset, 2, 4), r2[1].cell),
            (config.advice_cell(region, start_offset, 2, 0), r2[2].cell),
            (config.advice_cell(region, start_offset, 2, 1), r2[3].cell),
            (config.advice_cell(region, start_offset, 2, 2), r2[4].cell),
        ]
    }

    /// The table after the final merge: the window that starts at
    /// `start_offset` is written, the second selector is on for its first
    /// row, and every incoming word is tied to where it came from.
    pub open spec fn compress_table(
        &self,
        before: Table,
        start_offset: usize,
        r0: Seq<AssignedCell>,
        r1: Seq<AssignedCell>,
        r2: Seq<AssignedCell>,
    ) -> Table {
        let config = self.columns();
        Table {
            index: before.index,
            advice: before.advice.union_prefer_right(
                config.window(
                    start_offset as int,
                    compress_slots(),
                    compress_cells(values_of(r0), values_of(r1), values_of(r2)),
                ),
            ),
            fixed: before.fixed,
            enabled: before.enabled.insert((config.selector@[1] as int, start_offset as int)),
            copies: before.copies + self.compress_copies(before.index, start_offset, r0, r1, r2),
        }
    }

    /// `after` is `before` with the final merge.
    pub open spec fn compress_filled(
        &self,
        before: Table,
        after: Table,
        start_offset: usize,
        r0: Seq<AssignedCell>,
        r1: Seq<AssignedCell>,
        r2: Seq<AssignedCell>,
    ) -> bool {
        after == self.compress_table(before, start_offset, r0, r1, r2)
    }

    /// The cells that the final merge hands on: the merged words `a` to `e`.
    pub open spec fn compress_outputs(
        &self,
        region: usize,
        start_offset: usize,
        r0: Seq<AssignedCell>,
        r1: Seq<AssignedCell>,
        r2: Seq<AssignedCell>,
    ) -> Seq<AssignedCell> {
        Seq::new(
            5,
            |i: int|
                AssignedCell {
                    cell: self.columns().advice_cell(region, start_offset, 5, (i + 4) % 5),
                    value: merge(values_of(r0), values_of(r1), values_of(r2))[i] as u64,
                },
        )
    }

    /// Writes one row of the final merge: the sum of the three words, its
    /// carry, and the merged word.
    fn assign_merged(
        &self,
        region: &mut Region,
        start_offset: usize,
        i: usize,
        initial: &AssignedCell,
        left: &AssignedCell,
        right: &AssignedCell,
        sum_cell: GateCell,
        carry_cell: GateCell,
        merged_cell: GateCell,
        Ghost(base): Ghost<Table>,
        Ghost(slots): Ghost<Set<(int, int)>>,
        Ghost(cells): Ghost<spec_fn(int, int) -> int>,
    ) -> (merged: AssignedCell)
        requires
            self.columns().wf(),
            i < 5,
            start_offset + 4 <= usize::MAX,
            initial.value <= u32::MAX && left.value <= u32::MAX && right.value <= u32::MAX,
            sum_cell.at(ADVICE, 3, i),
            carry_cell.at(ADVICE, 4, i),
            merged_cell.at(ADVICE, 5, ((i + 4) % 5) as usize),
            cells(3, i as int) == initial.value + left.value + right.value,
            cells(4, i as int) == carry_of(initial.value + left.value + right.value),
            cells(5, (i + 4) % 5) == word_of(initial.value + left.value + right.value),
            old(region)@.advice == base.advice.union_prefer_right(
                self.columns().window(start_offset as int, slots, cells),
            ),
        ensures
            final(region).index == old(region).index,
            final(region)@ == (Table { advice: final(region)@.advice, ..old(region)@ }),
            final(region)@.advice == base.advice.union_prefer_right(
                self.columns().window(
                    start_offset as int,
                    slots.insert((3, i as int)).insert((4, i as int)).insert(
                        (5, (i + 4) % 5),
                    ),
                    cells,
                ),
            ),
            merged.cell == self.columns().advice_cell(
                old(region).index,
                start_offset,
                5,
                (i + 4) % 5,
            ),
            merged.value == word_of(initial.value + left.value + right.value),
    {
        let ghost config = self.columns();
        let ghost start = start_offset as int;
        let ghost mut slots = slots;
        let ghost mut table = region@;
        let word: u32 = (initial.value as u32).wrapping_add(left.value as u32).wrapping_add(
            right.value as u32,
        );
        let sum: u64 = initial.value + left.value + right.value;
        let carry: u64 = carry_between(sum, word);
        self.assign_cell(region, start_offset, sum_cell, sum);
        proof {
            slots = fill_step(config, base, table, region@, start, slots, cells, 3, i as int);
            table = region@;
        }
        self.assign_cell(region, start_offset, carry_cell, carry);
        proof {
            slots = fill_step(config, base, table, region@, start, slots, cells, 4, i as int);
            table = region@;
        }
        let merged = self.assign_cell(region, start_offset, merged_cell, word as u64);
        proof {
            slots = fill_step(config, base, table, region@, start, slots, cells, 5, (i + 4) % 5);
            table = region@;
        }
        merged
    }

    /// Fills the window of the final merge: binds the initial state and the
    /// states of both lines, writes the five sums with their carries and
    /// merged words, switches the merge on, and hands on the merged words.
    pub fn assign_compress(
        &self,
        region: &mut Region,
        start_offset: usize,
        r0: &[AssignedCell; 5],
        r1: &[AssignedCell; 5],
        r2: &[AssignedCell; 5],
    ) -> (merged: [AssignedCell; 5])
        requires
            self.columns().wf(),
            start_offset + 4 <= usize::MAX,
            are_words(r0@),
            are_words(r1@),
            are_words(r2@),
        ensures
            self.compress_filled(old(region)@, final(region)@, start_offset, r0@, r1@, r2@),
            merged@ == self.compress_outputs(old(region)@.index, start_offset, r0@, r1@, r2@),
            values_of(merged@) == merge(values_of(r0@), values_of(r1@), values_of(r2@)),
            are_words(merged@),
            forall|i: int|
                0 <= i < 5 ==> final(region)@.holds(
                    (#[trigger] merged@[i]).cell,
                    merged@[i].value as int,
                ),
            compress_assigned(self.columns(), final(region)@, start_offset as int),
            compress_equations(self.columns(), final(region)@, start_offset as int),
            compress_ranges(self.columns(), final(region)@, start_offset as int),
            self.columns().sel(final(region)@, start_offset as int, 1) == 1,
            final(region)@.unchanged_outside(old(region)@, start_offset as int, start_offset + 5),
    {
        let ghost base = region@;
        let ghost config = self.columns();
        let ghost start = start_offset as int;
        let ghost cells = compress_cells(values_of(r0@), values_of(r1@), values_of(r2@));
        let ghost mut slots: Set<(int, int)> = Set::empty();
        let ghost mut table = region@;
        proof {
            region.lemma_index();
            assert(table.advice =~= base.advice.union_prefer_right(
                config.window(start, slots, cells),
            ));
        }
        self.bind_cell(region, start_offset, CompressGate::a(), &r0[0]);
        proof {
            slots = fill_step(config, base, table, region@, start, slots, cells, 0, 0);
            table = region@;
        }
        self.bind_cell(region, start_offset, CompressGate::b(), &r0[1]);
        proof {
            slots = fill_step(config, base, table, region@, start, slots, cells, 0, 1);
            table = region@;
        }
        self.bind_cell(region, start_offset, CompressGate::c(), &r0[2]);
        proof {
            slots = fill_step(config, base, table, region@, start, slots, cells, 0, 2);
            table = region@;
        }
        self.bind_cell(region, start_offset, CompressGate::d(), &r0[3]);
        proof {
            slots = fill_step(config, base, table, region@, start, slots, cells, 0, 3);
            table = region@;
        }
        self.bind_cell(region, start_offset, CompressGate::e(), &r0[4]);
        proof {
            slots = fill_step(config, base, table, region@, start, slots, cells, 0, 4);
            table = region@;
        }
        self.bind_cell(region, start_offset, CompressGate::a1(), &r1[0]);
        proof {
            slots = fill_step(config, base, table, region@, start, slots, cells, 1, 4);
            table = region@;
        }
        self.bind_cell(region, start_offset, CompressGate::b1(), &r1[1]);
        proof {
            slots = fill_step(config, base, table, region@, start, slots, cells, 1, 0);
            table = region@;
        }
        self.bind_cell(region, start_offset, CompressGate::c1(), &r1[2]);
        proof {
            slots = fill_step(config, base, table, region@, start, slots, cells, 1, 1);
            table = region@;
        }
        self.bind_cell(region, start_offset, CompressGate::d1(), &r1[3]);
        proof {
            slots = fill_step(config, base, table, region@, start, slots, cells, 1, 2);
            table = region@;
        }
        self.bind_cell(region, start_offset, CompressGate::e1(), &r1[4]);
        proof {
            slots = fill_step(config, base, table, region@, start, slots, cells, 1, 3);
            table = region@;
        }
        self.bind_cell(region, start_offset, CompressGate::a2(), &r2[0]);
        proof {
            slots = fill_step(config, base, table, region@, start, slots, cells, 2, 3);
            table = region@;
        }
        self.bind_cell(region, start_offset, CompressGate::b2(), &r2[1]);
        proof {
            slots = fill_step(config, base, table, region@, start, slots, cells, 2, 4);
            table = region@;
        }
        self.bind_cell(region, start_offset, CompressGate::c2(), &r2[2]);
        proof {
            slots = fill_step(config, base, table, region@, start, slots, cells, 2, 0);
            table = region@;
        }
        self.bind_cell(region, start_offset, CompressGate::d2(), &r2[3]);
        proof {
            slots = fill_step(config, base, table, region@, start, slots, cells, 2, 1);
            table = region@;
        }
        self.bind_cell(region, start_offset, CompressGate::e2(), &r2[4]);
        proof {
            slots = fill_step(config, base, table, region@, start, slots, cells, 2, 2);
            table = region@;
        }
        self.enable_selector(region, start_offset, CompressGate::rsel(0));
        let anew = self.assign_merged(
            region,
            start_offset,
            0,
            &r0[0],
            &r1[1],
            &r2[2],
            CompressGate::sum0(),
            CompressGate::ca0(),
            CompressGate::anew(),
            Ghost(base),
            Ghost(slots),
            Ghost(cells),
        );
        proof {
            slots = slots.insert((3, 0)).insert((4, 0)).insert((5, 4));
        }
        let bnew = self.assign_merged(
            region,
            start_offset,
            1,
            &r0[1],
            &r1[2],
            &r2[3],
            CompressGate::sum1(),
            CompressGate::ca1(),
            CompressGate::bnew(),
            Ghost(base),
            Ghost(slots),
            Ghost(cells),
        );
        proof {
            slots = slots.insert((3, 1)).insert((4, 1)).insert((5, 0));
        }
        let cnew = self.assign_merged(
            region,
            start_offset,
            2,
            &r0[2],
            &r1[3],
            &r2[4],
            CompressGate::sum2(),
            CompressGate::ca2(),
            CompressGate::cnew(),
            Ghost(base),
            Ghost(slots),
            Ghost(cells),
        );
        proof {
            slots = slots.insert((3, 2)).insert((4, 2)).insert((5, 1));
        }
        let dnew = self.assign_merged(
            region,
            start_offset,
            3,
            &r0[3],
            &r1[4],
            &r2[0],
            CompressGate::sum3(),
            CompressGate::ca3(),
            CompressGate::dnew(),
            Ghost(base),
            Ghost(slots),
            Ghost(cells),
        );
        proof {
            slots = slots.insert((3, 3)).insert((4, 3)).insert((5, 2));
        }
        let enew = self.assign_merged(
            region,
            start_offset,
            4,
            &r0[4],
            &r1[0],
            &r2[1],
            CompressGate::sum4(),
            CompressGate::ca4(),
            CompressGate::enew(),
            Ghost(base),
            Ghost(slots),
            Ghost(cells),
        );
        proof {
            slots = slots.insert((3, 4)).insert((4, 4)).insert((5, 3));
        }
        let merged: [AssignedCell; 5] = [anew, bnew, cnew, dnew, enew];
        proof {
            assert(slots =~= compress_slots());
            assert(merged@ =~= self.compress_outputs(base.index, start_offset, r0@, r1@, r2@));
            assert(region@.copies =~= base.copies + self.compress_copies(
                base.index,
                start_offset,
                r0@,
                r1@,
                r2@,
            ));
            lemma_compress_filled(*self, base, region@, start_offset, r0@, r1@, r2@);
        }
        merged
    }
}

/// A filled merge window is complete and meets the equations of the final
/// merge.
proof fn lemma_compress_filled_equations(
    chip: RMD160Chip,
    before: Table,
    after: Table,
    start_offset: usize,
    r0: Seq<AssignedCell>,
    r1: Seq<AssignedCell>,
    r2: Seq<AssignedCell>,
)
    requires
        chip.columns().wf(),
        start_offset + 4 <= usize::MAX,
        r0.len() == 5 && r1.len() == 5 && r2.len() == 5,
        are_words(r0) && are_words(r1) && are_words(r2),
        chip.compress_filled(before, after, start_offset, r0, r1, r2),
    ensures
        compress_assigned(chip.columns(), after, start_offset as int),
        compress_equations(chip.columns(), after, start_offset as int),
        chip.columns().sel(after, start_offset as int, 1) == 1,
{
    let config = chip.columns();
    let start = start_offset as int;
    let cells = compress_cells(values_of(r0), values_of(r1), values_of(r2));
    lemma_window_cells(config, before, after, start, compress_slots(), cells);
    let merged = merge(values_of(r0), values_of(r1), values_of(r2));
    assert forall|i: int| 0 <= i < 5 implies #[trigger] merge_row(config, after, start, i) by {
        let sum = values_of(r0)[i] + values_of(r1)[(i + 1) % 5] + values_of(r2)[(i + 2) % 5];
        assert(config.adv(after, start, 0, i) == cells(0, i));
        assert(config.adv(after, start, 1, i) == cells(1, i));
        assert(config.adv(after, start, 2, i) == cells(2, i));
        assert(config.adv(after, start, 3, i) == cells(3, i));
        assert(config.adv(after, start, 4, i) == cells(4, i));
        assert(config.adv(after, start, 5, (i + 4) % 5) == cells(5, (i + 4) % 5));
        assert(merged[i] == word_of(sum));
        vstd::arithmetic::div_mod::lemma_fundamental_div_mod(sum, 0x1_0000_0000);
    }
}

/// The cells that a filled merge window hands on are its own, and hold the
/// merged state.
proof fn lemma_compress_filled_outputs(
    chip: RMD160Chip,
    before: Table,
    after: Table,
    start_offset: usize,
    r0: Seq<AssignedCell>,
    r1: Seq<AssignedCell>,
    r2: Seq<AssignedCell>,
)
    requires
        chip.columns().wf(),
        start_offset + 4 <= usize::MAX,
        r0.len() == 5 && r1.len() == 5 && r2.len() == 5,
        are_words(r0) && are_words(r1) && are_words(r2),
        chip.compress_filled(before, after, start_offset, r0, r1, r2),
    ensures
        forall|i: int|
            0 <= i < 5 ==> after.holds(
                (#[trigger] chip.compress_outputs(before.index, start_offset, r0, r1, r2)[i]).cell,
                chip.compress_outputs(before.index, start_offset, r0, r1, r2)[i].value as int,
            ),
        values_of(chip.compress_outputs(before.index, start_offset, r0, r1, r2)) == merge(
            values_of(r0),
            values_of(r1),
            values_of(r2),
        ),
        are_words(chip.compress_outputs(before.index, start_offset, r0, r1, r2)),
{
    let config = chip.columns();
    let start = start_offset as int;
    let cells = compress_cells(values_of(r0), values_of(r1), values_of(r2));
    lemma_window_cells(config, before, after, start, compress_slots(), cells);
    let outputs = chip.compress_outputs(before.index, start_offset, r0, r1, r2);
    assert forall|i: int| 0 <= i < 5 implies after.holds(
        (#[trigger] outputs[i]).cell,
        outputs[i].value as int,
    ) by {
        assert(config.has_adv(after, start, 5, (i + 4) % 5));
        assert(config.adv(after, start, 5, (i + 4) % 5) == cells(5, (i + 4) % 5));
    }
    assert(values_of(outputs) =~= merge(values_of(r0), values_of(r1), values_of(r2)));
}

/// A filled merge window keeps within the ranges that its equations rely
/// on.
proof fn lemma_compress_filled_ranges(
    chip: RMD160Chip,
    before: Table,
    after: Table,
    start_offset: usize,
    r0: Seq<AssignedCell>,
    r1: Seq<AssignedCell>,
    r2: Seq<AssignedCell>,
)
    requires
        chip.columns().wf(),
        r0.len() == 5 && r1.len() == 5 && r2.len() == 5,
        chip.compress_filled(before, after, start_offset, r0, r1, r2),
    ensures
        compress_ranges(chip.columns(), after, start_offset as int),
{
    let config = chip.columns();
    let start = start_offset as int;
    let cells = compress_cells(values_of(r0), values_of(r1), values_of(r2));
    lemma_window_cells(config, before, after, start, compress_slots(), cells);
    assert forall|o: int| 0 <= o < 5 implies 0 <= #[trigger] config.adv(after, start, 5, o)
        < 0x1_0000_0000 by {
        assert(config.adv(after, start, 5, o) == cells(5, o));
    }
}

/// A filled merge window leaves every other row as it was.
proof fn lemma_compress_filled_frame(
    chip: RMD160Chip,
    before: Table,
    after: Table,
    start_offset: usize,
    r0: Seq<AssignedCell>,
    r1: Seq<AssignedCell>,
    r2: Seq<AssignedCell>,
)
    requires
        chip.compress_filled(before, after, start_offset, r0, r1, r2),
    ensures
        after.unchanged_outside(before, start_offset as int, start_offset + 5),
{
    lemma_window_frame(
        chip.columns(),
        before,
        after,
        start_offset as int,
        compress_slots(),
        compress_cells(values_of(r0), values_of(r1), values_of(r2)),
    );
}

/// A filled merge window is complete and meets the equations of the final
/// merge; nothing outside its five rows has changed, and the cells that it
/// hands on are its own and hold the merged state.
pub proof fn lemma_compress_filled(
    chip: RMD160Chip,
    before: Table,
    after: Table,
    start_offset: usize,
    r0: Seq<AssignedCell>,
    r1: Seq<AssignedCell>,
    r2: Seq<AssignedCell>,
)
    requires
        chip.columns().wf(),
        start_offset + 4 <= usize::MAX,
        r0.len() == 5 && r1.len() == 5 && r2.len() == 5,
        are_words(r0) && are_words(r1) && are_words(r2),
        chip.compress_filled(before, after, start_offset, r0, r1, r2),
    ensures
        compress_assigned(chip.columns(), after, start_offset as int),
        compress_equations(chip.columns(), after, start_offset as int),
        chip.columns().sel(after, start_offset as int, 1) == 1,
        after.unchanged_outside(before, start_offset as int, start_offset + 5),
        forall|i: int|
            0 <= i < 5 ==> after.holds(
                (#[trigger] chip.compress_outputs(before.index, start_offset, r0, r1, r2)[i]).cell,
                chip.compress_outputs(before.index, start_offset, r0, r1, r2)[i].value as int,
            ),
        values_of(chip.compress_outputs(before.index, start_offset, r0, r1, r2)) == merge(
            values_of(r0),
            values_of(r1),
            values_of(r2),
        ),
        are_words(chip.compress_outputs(before.index, start_offset, r0, r1, r2)),
        compress_ranges(chip.columns(), after, start_offset as int),
{
    lemma_compress_filled_ranges(chip, before, after, start_offset, r0, r1, r2);
    lemma_compress_filled_equations(chip, before, after, start_offset, r0, r1, r2);
    lemma_compress_filled_outputs(chip, before, after, start_offset, r0, r1, r2);
    lemma_compress_filled_frame(chip, before, after, start_offset, r0, r1, r2);
}

} // verus!
