//! The rows of one compression: two lines of eighty round steps each, and
//! the final merge.

use crate::chip::RMD160Chip;
use crate::hash::{compress, line_state, step_witness};
use crate::schedule::{left_view, right_view, Line, LineView};
use crate::soundness::{closed_under, lemma_content, sound};
use crate::table::{are_words, values_of, AssignedCell, Region, Table};
use vstd::prelude::*;

verus! {

/// Rows that one compression takes up: 160 round steps and the final merge,
/// five rows each.
pub const CONTENT_ROWS: usize = 805;

impl RMD160Chip {
    /// The cells that hold the state of a line after its first `steps`
    /// steps, when the line starts at row `start_offset` of region `region`.
    pub open spec fn line_cells(
        &self,
        region: usize,
        start_offset: usize,
        start: Seq<AssignedCell>,
        inputs: Seq<AssignedCell>,
        line: LineView,
        steps: nat,
    ) -> Seq<AssignedCell>
        decreases steps,
    {
        if steps == 0 {
            start
        } else {
            let k = (steps - 1) as nat;
            let previous = self.line_cells(region, start_offset, start, inputs, line, k);
            self.round_outputs(
                region,
                (start_offset + 5 * k) as usize,
                previous,
                step_witness(line, values_of(previous), values_of(inputs), k as int),
            )
        }
    }

    /// The table after the first `steps` steps of a line that starts at row
    /// `start_offset`, one window of five rows per step.
    pub open spec fn line_table(
        &self,
        before: Table,
        start_offset: usize,
        start: Seq<AssignedCell>,
        inputs: Seq<AssignedCell>,
        line: LineView,
        steps: nat,
    ) -> Table
        decreases steps,
    {
        if steps == 0 {
            before
        } else {
            let k = (steps - 1) as nat;
            let previous = self.line_cells(before.index, start_offset, start, inputs, line, k);
            self.round_table(
                self.line_table(before, start_offset, start, inputs, line, k),
                (start_offset + 5 * k) as usize,
                previous,
                inputs[line.order[k as int / 16][k as int % 16] as int],
                line.shift[k as int / 16][k as int % 16],
                line.offset[k as int / 16],
                step_witness(line, values_of(previous), values_of(inputs), k as int),
            )
        }
    }

    /// The table of one compression in a fresh region with number `index`:
    /// the left line from row 0, the right line from row 400, and the final
    /// merge at row 800.
    pub open spec fn content_table(
        &self,
        index: usize,
        start_buf: Seq<AssignedCell>,
        inputs: Seq<AssignedCell>,
    ) -> Table {
        let left = self.line_table(Table::empty(index), 0, start_buf, inputs, left_view(), 80);
        let right = self.line_table(left, 400, start_buf, inputs, right_view(), 80);
        self.compress_table(
            right,
            800,
            start_buf,
            self.line_cells(index, 0, start_buf, inputs, left_view(), 80),
            self.line_cells(index, 400, start_buf, inputs, right_view(), 80),
        )
    }

    /// The cells that hold the result of one compression.
    pub open spec fn content_cells(
        &self,
        index: usize,
        start_buf: Seq<AssignedCell>,
        inputs: Seq<AssignedCell>,
    ) -> Seq<AssignedCell> {
        self.compress_outputs(
            index,
            800,
            start_buf,
            self.line_cells(index, 0, start_buf, inputs, left_view(), 80),
            self.line_cells(index, 400, start_buf, inputs, right_view(), 80),
        )
    }

    /// Runs one line: eighty round steps from `start_buf` over the message
    /// `inputs`, each in a window of its own from row `start_offset` on.
    /// Returns the cells of the line's final state and the first row after
    /// the line.
    pub fn assign_line(
        &self,
        region: &mut Region,
        start_offset: usize,
        start_buf: &[AssignedCell; 5],
        inputs: &[AssignedCell; 16],
        line: &Line,
    ) -> (out: ([AssignedCell; 5], usize))
        requires
            self.columns().wf(),
            line@.wf(),
            start_offset + 400 <= usize::MAX,
            are_words(start_buf@),
            are_words(inputs@),
        ensures
            final(region)@ == self.line_table(
                old(region)@,
                start_offset,
                start_buf@,
                inputs@,
                line@,
                80,
            ),
            out.0@ == self.line_cells(
                old(region)@.index,
                start_offset,
                start_buf@,
                inputs@,
                line@,
                80,
            ),
            out.1 == start_offset + 400,
            values_of(out.0@) == line_state(
                line@,
                values_of(start_buf@),
                values_of(inputs@),
                80,
            ),
            are_words(out.0@),
    {
        let ghost before = region@;
        let mut r1: [AssignedCell; 5] = *start_buf;
        let mut cursor: usize = start_offset;
        let mut round: usize = 0;
        while round < 5
            invariant
                round <= 5,
                self.columns().wf(),
                line@.wf(),
                start_offset + 400 <= usize::MAX,
                are_words(inputs@),
                cursor == start_offset + 80 * round,
                are_words(r1@),
                region@ == self.line_table(
                    before,
                    start_offset,
                    start_buf@,
                    inputs@,
                    line@,
                    (16 * round) as nat,
                ),
                r1@ == self.line_cells(
                    before.index,
                    start_offset,
                    start_buf@,
                    inputs@,
                    line@,
                    (16 * round) as nat,
                ),
                values_of(r1@) == line_state(
                    line@,
                    values_of(start_buf@),
                    values_of(inputs@),
                    (16 * round) as nat,
                ),
            decreases 5 - round,
        {
            let mut index: usize = 0;
            while index < 16
                invariant
                    round < 5,
                    index <= 16,
                    self.columns().wf(),
                    line@.wf(),
                    start_offset + 400 <= usize::MAX,
                    are_words(inputs@),
                    cursor == start_offset + 5 * (16 * round + index),
                    are_words(r1@),
                    region@ == self.line_table(
                        before,
                        start_offset,
                        start_buf@,
                        inputs@,
                        line@,
                        (16 * round + index) as nat,
                    ),
                    r1@ == self.line_cells(
                        before.index,
                        start_offset,
                        start_buf@,
                        inputs@,
                        line@,
                        (16 * round + index) as nat,
                    ),
                    values_of(r1@) == line_state(
                        line@,
                        values_of(start_buf@),
                        values_of(inputs@),
                        (16 * round + index) as nat,
                    ),
                decreases 16 - index,
            {
                let ghost k = (16 * round + index) as nat;
                let rotated = self.rotate_inputs(inputs, line.order_of(round));
                let shifts = line.shifts();
                let offsets = line.offsets();
                proof {
                    region.lemma_index();
                    Self::lemma_line_index(
                        *self,
                        before,
                        start_offset,
                        start_buf@,
                        inputs@,
                        line@,
                        k,
                    );
                    assert(k as int / 16 == round && k as int % 16 == index);
                    assert(line@.shift[round as int].len() == 16);
                    assert(1 <= line@.shift[round as int][index as int] <= 31);
                    assert(shifts@[round as int]@ == line@.shift[round as int]);
                    assert(rotated@[index as int].value <= u32::MAX);
                }
                r1 = self.assign_next(
                    region,
                    cursor,
                    &r1,
                    &rotated[index],
                    round,
                    index,
                    shifts,
                    offsets,
                    line.mirrored(),
                );
                proof {
                    assert(values_of(inputs@)[line@.order[round as int][index as int] as int]
                        == rotated@[index as int].value as u32);
                }
                cursor += 5;
                index += 1;
            }
            round += 1;
        }
        (r1, cursor)
    }

    /// Proves one compression: fills a fresh region with number `index` with
    /// the left line, the right line and the final merge of the state in
    /// `start_buf` and the message in `inputs`. Returns the region and the
    /// cells of the compressed state.
    pub fn assign_content(
        &self,
        index: usize,
        start_buf: &[AssignedCell; 5],
        inputs: &[AssignedCell; 16],
    ) -> (out: (Region, [AssignedCell; 5]))
        requires
            self.columns().wf(),
            are_words(start_buf@),
            are_words(inputs@),
        ensures
            out.0@ == self.content_table(index, start_buf@, inputs@),
            out.1@ == self.content_cells(index, start_buf@, inputs@),
            out.0.index == index,
            values_of(out.1@) == compress(values_of(start_buf@), values_of(inputs@)),
            are_words(out.1@),
            forall|i: int| 0 <= i < 5 ==> out.0@.holds((#[trigger] out.1@[i]).cell, out.1@[i].value as int),
            sound(self.columns(), out.0@),
            closed_under(out.0@, start_buf@ + inputs@),
            out.0@.untouched_from(CONTENT_ROWS as int),
    {
        let mut region = Region::new(index);
        let left = Line::left();
        let right = Line::right();
        let (r1, cursor) = self.assign_line(&mut region, 0, start_buf, inputs, &left);
        let (r2, cursor) = self.assign_line(&mut region, cursor, start_buf, inputs, &right);
        let digest = self.assign_compress(&mut region, cursor, start_buf, &r1, &r2);
        proof {
            region.lemma_index();
            Self::lemma_line_index(
                *self,
                Table::empty(index),
                0,
                start_buf@,
                inputs@,
                left_view(),
                80,
            );
            lemma_content(*self, index, start_buf@, inputs@);
        }
        (region, digest)
    }

    /// The table of a line belongs to the region that it started in.
    pub proof fn lemma_line_index(
        chip: RMD160Chip,
        before: Table,
        start_offset: usize,
        start: Seq<AssignedCell>,
        inputs: Seq<AssignedCell>,
        line: LineView,
        steps: nat,
    )
        ensures
            chip.line_table(before, start_offset, start, inputs, line, steps).index
                == before.index,
        decreases steps,
    {
        if steps > 0 {
            Self::lemma_line_index(
                chip,
                before,
                start_offset,
                start,
                inputs,
                line,
                (steps - 1) as nat,
            );
        }
    }
}

} // verus!
