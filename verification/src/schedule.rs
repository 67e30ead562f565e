//! The round schedules of the two lines.
//!
//! Each line runs five rounds of sixteen steps. A schedule says, for every
//! step, which message word enters, by how much the sum is rotated, and which
//! constant is added in each round. The schedules of RIPEMD-160 are given as
//! constants; any other schedule is checked before it is accepted.

use vstd::prelude::*;

verus! {

/// The initial chaining value.
pub const H0: [u32; 5] = [0x67452301, 0xefcdab89, 0x98badcfe, 0x10325476, 0xc3d2e1f0];

/// Rotation amounts of the left line.
pub const R: [[u32; 16]; 5] = [
    [11, 14, 15, 12, 5, 8, 7, 9, 11, 13, 14, 15, 6, 7, 9, 8],
    [7, 6, 8, 13, 11, 9, 7, 15, 7, 12, 15, 9, 11, 7, 13, 12],
    [11, 13, 6, 7, 14, 9, 13, 15, 14, 8, 13, 6, 5, 12, 7, 5],
    [11, 12, 14, 15, 14, 15, 9, 8, 9, 14, 5, 6, 8, 6, 5, 12],
    [9, 15, 5, 11, 6, 8, 13, 12, 5, 12, 13, 14, 11, 8, 5, 6],
];

/// Message word order of the left line.
pub const O: [[usize; 16]; 5] = [
    [0, 1, 2, 3, 4, 5, 6, 7, 8, 9, 10, 11, 12, 13, 14, 15],
    [7, 4, 13, 1, 10, 6, 15, 3, 12, 0, 9, 5, 2, 14, 11, 8],
    [3, 10, 14, 4, 9, 15, 8, 1, 2, 7, 0, 6, 13, 11, 5, 12],
    [1, 9, 11, 10, 0, 8, 12, 4, 13, 3, 7, 15, 14, 5, 6, 2],
    [4, 0, 5, 9, 7, 12, 2, 10, 14, 1, 3, 8, 11, 6, 15, 13],
];

/// Rotation amounts of the right line.
pub const PR: [[u32; 16]; 5] = [
    [8, 9, 9, 11, 13, 15, 15, 5, 7, 7, 8, 11, 14, 14, 12, 6],
    [9, 13, 15, 7, 12, 8, 9, 11, 7, 7, 12, 7, 6, 15, 13, 11],
    [9, 7, 15, 11, 8, 6, 6, 14, 12, 13, 5, 14, 13, 13, 7, 5],
    [15, 5, 8, 11, 14, 14, 6, 14, 6, 9, 12, 9, 12, 5, 15, 8],
    [8, 5, 12, 9, 12, 5, 14, 6, 8, 13, 6, 5, 15, 13, 11, 11],
];

/// Message word order of the right line.
pub const PO: [[usize; 16]; 5] = [
    [5, 14, 7, 0, 9, 2, 11, 4, 13, 6, 15, 8, 1, 10, 3, 12],
    [6, 11, 3, 7, 0, 13, 5, 10, 14, 15, 8, 12, 4, 9, 1, 2],
    [15, 5, 1, 3, 7, 14, 6, 9, 11, 8, 12, 2, 10, 0, 4, 13],
    [8, 6, 4, 1, 3, 11, 15, 0, 5, 12, 2, 13, 9, 7, 10, 14],
    [12, 15, 10, 4, 1, 5, 8, 7, 6, 2, 13, 14, 0, 3, 9, 11],
];

/// Additive constants of the left line, one per round.
pub const ROUNDS_OFFSET: [u32; 5] = [0x0, 0x5a827999, 0x6ed9eba1, 0x8f1bbcdc, 0xa953fd4e];

/// Additive constants of the right line, one per round.
pub const PROUNDS_OFFSET: [u32; 5] = [0x50a28be6, 0x5c4dd124, 0x6d703ef3, 0x7a6d76e9, 0x0];

/// Why a schedule was turned down.
#[derive(Clone, Copy, Debug, PartialEq, Eq, Structural)]
pub enum ScheduleError {
    /// A table does not have one group per round.
    GroupCount,
    /// A group does not have one entry per step.
    GroupLength,
    /// A message index does not name one of the sixteen message words.
    IndexOutOfRange,
    /// A rotation amount is not in `1..=31`.
    ShiftOutOfRange,
}

/// A schedule as plain data.
pub struct LineView {
    /// The message index of each step, by round.
    pub order: Seq<Seq<usize>>,
    /// The rotation amount of each step, by round.
    pub shift: Seq<Seq<u32>>,
    /// The additive constant of each round.
    pub offset: Seq<u32>,
    /// Whether the mixing functions are taken in reverse order.
    pub mirrored: bool,
}

/// Every group has sixteen entries.
pub open spec fn groups_ok<T>(groups: Seq<Seq<T>>) -> bool {
    forall|r: int| 0 <= r < groups.len() ==> (#[trigger] groups[r]).len() == 16
}

/// Every message index is below sixteen.
pub open spec fn indices_ok(order: Seq<Seq<usize>>) -> bool {
    forall|r: int, i: int|
        0 <= r < order.len() && 0 <= i < order[r].len() ==> #[trigger] order[r][i] < 16
}

/// Every rotation amount is in `1..=31`.
pub open spec fn shifts_ok(shift: Seq<Seq<u32>>) -> bool {
    forall|r: int, i: int|
        0 <= r < shift.len() && 0 <= i < shift[r].len() ==> 1 <= #[trigger] shift[r][i] <= 31
}

/// What is wrong with a schedule, if anything: the first of the four defects
/// that it has.
pub open spec fn defect(order: Seq<Seq<usize>>, shift: Seq<Seq<u32>>, offset: Seq<u32>) -> Option<
    ScheduleError,
> {
    if order.len() != 5 || shift.len() != 5 || offset.len() != 5 {
        Some(ScheduleError::GroupCount)
    } else if !groups_ok(order) || !groups_ok(shift) {
        Some(ScheduleError::GroupLength)
    } else if !indices_ok(order) {
        Some(ScheduleError::IndexOutOfRange)
    } else if !shifts_ok(shift) {
        Some(ScheduleError::ShiftOutOfRange)
    } else {
        None
    }
}

impl LineView {
    /// The schedule has five rounds of sixteen steps, every message index is
    /// below sixteen and every rotation amount is in `1..=31`.
    pub open spec fn wf(self) -> bool {
        defect(self.order, self.shift, self.offset) is None
    }
}

/// A five by sixteen table as plain data.
pub open spec fn table_view<T>(table: [[T; 16]; 5]) -> Seq<Seq<T>> {
    Seq::new(5, |r: int| table@[r]@)
}

/// A table that came as a vector of groups, as plain data.
pub open spec fn nested<T>(groups: Seq<Vec<T>>) -> Seq<Seq<T>> {
    Seq::new(groups.len(), |r: int| groups[r]@)
}

/// The schedule of the left line.
pub open spec fn left_view() -> LineView {
    LineView {
        order: table_view(O),
        shift: table_view(R),
        offset: ROUNDS_OFFSET@,
        mirrored: false,
    }
}

/// The schedule of the right line.
pub open spec fn right_view() -> LineView {
    LineView {
        order: table_view(PO),
        shift: table_view(PR),
        offset: PROUNDS_OFFSET@,
        mirrored: true,
    }
}

/// The schedule of one line, checked when it was made.
pub struct Line {
    order: [[usize; 16]; 5],
    shift: [[u32; 16]; 5],
    offset: [u32; 5],
    mirrored: bool,
}

impl View for Line {
    type V = LineView;

    closed spec fn view(&self) -> LineView {
        LineView {
            order: table_view(self.order),
            shift: table_view(self.shift),
            offset: self.offset@,
            mirrored: self.mirrored,
        }
    }
}

fn row_of<T: Copy>(group: &Vec<T>, fill: T) -> (row: Option<[T; 16]>)
    ensures
        row.is_some() <==> group@.len() == 16,
        row matches Some(a) ==> a@ == group@,
{
    if group.len() != 16 {
        return None;
    }
    let mut row: [T; 16] = [fill;16];
    let mut i: usize = 0;
    while i < 16
        invariant
            i <= 16,
            group@.len() == 16,
            forall|k: int| 0 <= k < i ==> row@[k] == group@[k],
        decreases 16 - i,
    {
        row[i] = group[i];
        i += 1;
    }
    assert(row@ =~= group@);
    Some(row)
}

fn rows_of<T: Copy>(groups: &Vec<Vec<T>>, fill: T) -> (rows: Option<[[T; 16]; 5]>)
    requires
        groups@.len() == 5,
    ensures
        rows.is_some() <==> groups_ok(nested(groups@)),
        rows matches Some(a) ==> table_view(a) == nested(groups@),
{
    let mut rows: [[T; 16]; 5] = [[fill;16];5];
    let mut r: usize = 0;
    while r < 5
        invariant
            r <= 5,
            groups@.len() == 5,
            forall|k: int| 0 <= k < r ==> rows@[k]@ == (#[trigger] groups@[k])@,
        decreases 5 - r,
    {
        match row_of(&groups[r], fill) {
            Some(row) => {
                rows[r] = row;
            },
            None => {
                assert(nested(groups@)[r as int].len() != 16);
                return None;
            },
        }
        r += 1;
    }
    assert(table_view(rows) =~~= nested(groups@));
    Some(rows)
}

fn indices_below(order: &[[usize; 16]; 5]) -> (ok: bool)
    ensures
        ok <==> indices_ok(table_view(*order)),
{
    let mut r: usize = 0;
    while r < 5
        invariant
            r <= 5,
            forall|k: int, i: int| 0 <= k < r && 0 <= i < 16 ==> #[trigger] order@[k]@[i] < 16,
        decreases 5 - r,
    {
        let mut i: usize = 0;
        while i < 16
            invariant
                r < 5,
                i <= 16,
                forall|k: int, j: int| 0 <= k < r && 0 <= j < 16 ==> #[trigger] order@[k]@[j] < 16,
                forall|j: int| 0 <= j < i ==> #[trigger] order@[r as int]@[j] < 16,
            decreases 16 - i,
        {
            if order[r][i] >= 16 {
                assert(table_view(*order)[r as int][i as int] >= 16);
                return false;
            }
            i += 1;
        }
        r += 1;
    }
    true
}

fn shifts_within(shift: &[[u32; 16]; 5]) -> (ok: bool)
    ensures
        ok <==> shifts_ok(table_view(*shift)),
{
    let mut r: usize = 0;
    while r < 5
        invariant
            r <= 5,
            forall|k: int, i: int|
                0 <= k < r && 0 <= i < 16 ==> 1 <= #[trigger] shift@[k]@[i] <= 31,
        decreases 5 - r,
    {
        let mut i: usize = 0;
        while i < 16
            invariant
                r < 5,
                i <= 16,
                forall|k: int, j: int|
                    0 <= k < r && 0 <= j < 16 ==> 1 <= #[trigger] shift@[k]@[j] <= 31,
                forall|j: int| 0 <= j < i ==> 1 <= #[trigger] shift@[r as int]@[j] <= 31,
            decreases 16 - i,
        {
            if shift[r][i] < 1 || shift[r][i] > 31 {
                assert(!(1 <= table_view(*shift)[r as int][i as int] <= 31));
                return false;
            }
            i += 1;
        }
        r += 1;
    }
    true
}

impl Line {
    /// Checks a schedule and accepts it if it has no defect.
    pub fn new(order: &Vec<Vec<usize>>, shift: &Vec<Vec<u32>>, offset: &Vec<u32>, mirrored: bool) -> (line:
        Result<Line, ScheduleError>)
        ensures
            match line {
                Ok(line) => {
                    &&& defect(nested(order@), nested(shift@), offset@) is None
                    &&& line@.wf()
                    &&& line@.order == nested(order@)
                    &&& line@.shift == nested(shift@)
                    &&& line@.offset == offset@
                    &&& line@.mirrored == mirrored
                },
                Err(e) => defect(nested(order@), nested(shift@), offset@) == Some(e),
            },
    {
        if order.len() != 5 || shift.len() != 5 || offset.len() != 5 {
            return Err(ScheduleError::GroupCount);
        }
        let order_rows = rows_of(order, 0usize);
        let shift_rows = rows_of(shift, 0u32);
        let (order_rows, shift_rows) = match (order_rows, shift_rows) {
            (Some(o), Some(s)) => (o, s),
            _ => {
                return Err(ScheduleError::GroupLength);
            },
        };
        if !indices_below(&order_rows) {
            return Err(ScheduleError::IndexOutOfRange);
        }
        if !shifts_within(&shift_rows) {
            return Err(ScheduleError::ShiftOutOfRange);
        }
        let constants: [u32; 5] = [offset[0], offset[1], offset[2], offset[3], offset[4]];
        assert(constants@ =~= offset@);
        Ok(Line { order: order_rows, shift: shift_rows, offset: constants, mirrored })
    }

    /// The schedule of the left line of RIPEMD-160.
    pub fn left() -> (line: Line)
        ensures
            line@ == left_view(),
            line@.wf(),
    {
        let line = Line { order: O, shift: R, offset: ROUNDS_OFFSET, mirrored: false };
        proof {
            lemma_standard_schedules();
        }
        line
    }

    /// The schedule of the right line of RIPEMD-160.
    pub fn right() -> (line: Line)
        ensures
            line@ == right_view(),
            line@.wf(),
    {
        let line = Line { order: PO, shift: PR, offset: PROUNDS_OFFSET, mirrored: true };
        proof {
            lemma_standard_schedules();
        }
        line
    }

    /// The message index of step `index` of `round`.
    pub fn order_at(&self, round: usize, index: usize) -> (word: usize)
        requires
            self@.wf(),
            round < 5,
            index < 16,
        ensures
            word == self@.order[round as int][index as int],
            word < 16,
    {
        proof {
            let order = self@.order;
            assert(order[round as int].len() == 16);
            assert(order[round as int][index as int] < 16);
        }
        self.order[round][index]
    }

    /// The rotation amount of step `index` of `round`.
    pub fn shift_at(&self, round: usize, index: usize) -> (amount: u32)
        requires
            self@.wf(),
            round < 5,
            index < 16,
        ensures
            amount == self@.shift[round as int][index as int],
            1 <= amount <= 31,
    {
        self.shift[round][index]
    }

    /// The additive constant of `round`.
    pub fn offset_at(&self, round: usize) -> (constant: u32)
        requires
            self@.wf(),
            round < 5,
        ensures
            constant == self@.offset[round as int],
    {
        self.offset[round]
    }

    /// The message indices of `round`, in the order of its steps.
    pub fn order_of(&self, round: usize) -> (order: [usize; 16])
        requires
            self@.wf(),
            round < 5,
        ensures
            order@ == self@.order[round as int],
            forall|i: int| 0 <= i < 16 ==> order@[i] < 16,
    {
        proof {
            let order = self@.order;
            assert(order[round as int].len() == 16);
            assert forall|i: int| 0 <= i < 16 implies order[round as int][i] < 16 by {}
        }
        self.order[round]
    }

    /// The rotation amounts of all steps, by round.
    pub fn shifts(&self) -> (shift: &[[u32; 16]; 5])
        ensures
            table_view(*shift) == self@.shift,
    {
        &self.shift
    }

    /// The additive constants of all rounds.
    pub fn offsets(&self) -> (offset: &[u32; 5])
        ensures
            offset@ == self@.offset,
    {
        &self.offset
    }

    /// Whether the line takes the mixing functions in reverse order.
    pub fn mirrored(&self) -> (mirrored: bool)
        ensures
            mirrored == self@.mirrored,
    {
        self.mirrored
    }
}

/// A schedule with a group that does not have sixteen entries, or with a
/// rotation amount of 0 or above 31, has a defect.
pub proof fn lemma_defects(
    order: Seq<Seq<usize>>,
    shift: Seq<Seq<u32>>,
    offset: Seq<u32>,
    round: int,
    index: int,
)
    requires
        0 <= round < 5,
    ensures
        order.len() == 5 && order[round].len() != 16 ==> defect(order, shift, offset) is Some,
        shift.len() == 5 && shift[round].len() != 16 ==> defect(order, shift, offset) is Some,
        order.len() == 5 && 0 <= index < order[round].len() && order[round][index] >= 16 ==> defect(
            order,
            shift,
            offset,
        ) is Some,
        shift.len() == 5 && 0 <= index < shift[round].len() && (shift[round][index] == 0
            || shift[round][index] >= 32) ==> defect(order, shift, offset) is Some,
{
}

/// The two schedules of RIPEMD-160 have no defect.
pub proof fn lemma_standard_schedules()
    ensures
        left_view().wf(),
        right_view().wf(),
{
    assert(groups_ok(table_view(O)) && groups_ok(table_view(R)));
    assert(groups_ok(table_view(PO)) && groups_ok(table_view(PR)));
    assert(indices_ok(table_view(O)));
    assert(indices_ok(table_view(PO)));
    assert(shifts_ok(table_view(R)));
    assert(shifts_ok(table_view(PR)));
}

} // verus!
