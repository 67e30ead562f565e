//! Where each value of a gate sits inside its five-row window.
//!
//! A gate cell names a column kind, a column and a row offset from the first
//! row of the window, together with a label for diagnostics.
//!
//! The round gate:
//!
//! ```text
//! | sel0 | sel1 | adv0 | adv1 | adv2 | adv3 | adv4 | adv5   | adv6   | fix0   |
//! | hsel | rsel | a    | b    | c    | d    | x    | e      | c_next | offset |
//! |      |      | w0   | b0   | c0   | d0   | r0   | w1_h   | w4_h   | w1_r   |
//! |      |      | wb   | b1   | c1   | d1   | r1   | w1_l   | w4_l   | w1_rr  |
//! |      |      | wc   | b2   | c2   | d2   | r2   | a_next | w2b    |        |
//! |      |      | w1   | b3   | c3   | d3   | r3   |        | w2c    |        |
//! ```
//!
//! The compress gate:
//!
//! ```text
//! | sel1 | adv0 | adv1 | adv2 | adv3 | adv4 | adv5 |
//! | rsel | a    | b1   | c2   | sum0 | ca0  | bnew |
//! |      | b    | c1   | d2   | sum1 | ca1  | cnew |
//! |      | c    | d1   | e2   | sum2 | ca2  | dnew |
//! |      | d    | e1   | a2   | sum3 | ca3  | enew |
//! |      | e    | a1   | b2   | sum4 | ca4  | anew |
//! ```

use vstd::prelude::*;

verus! {

/// Column kind of an advice cell.
pub const ADVICE: usize = 0;

/// Column kind of a fixed cell.
pub const FIXED: usize = 1;

/// Column kind of a selector.
pub const SELECTOR: usize = 2;

/// A position inside a gate's window, with a label.
pub struct GateCell {
    /// Column kind, column and row offset, in this order.
    pub cell: [usize; 3],
    /// Label for diagnostics.
    pub name: String,
}

/// The character of the decimal digit `d`.
pub open spec fn digit_char(d: int) -> char {
    if d == 0 {
        '0'
    } else if d == 1 {
        '1'
    } else if d == 2 {
        '2'
    } else if d == 3 {
        '3'
    } else if d == 4 {
        '4'
    } else if d == 5 {
        '5'
    } else if d == 6 {
        '6'
    } else if d == 7 {
        '7'
    } else if d == 8 {
        '8'
    } else {
        '9'
    }
}

/// The decimal notation of `n`, without leading zeros.
pub open spec fn decimal(n: nat) -> Seq<char>
    decreases n,
{
    if n < 10 {
        seq![digit_char(n as int)]
    } else {
        decimal(n / 10).push(digit_char((n % 10) as int))
    }
}

fn digit_str(d: usize) -> (s: &'static str)
    requires
        d < 10,
    ensures
        s@ == seq![digit_char(d as int)],
{
    proof {
        reveal_strlit("0");
        reveal_strlit("1");
        reveal_strlit("2");
        reveal_strlit("3");
        reveal_strlit("4");
        reveal_strlit("5");
        reveal_strlit("6");
        reveal_strlit("7");
        reveal_strlit("8");
        reveal_strlit("9");
    }
    let s: &'static str = if d == 0 {
        "0"
    } else if d == 1 {
        "1"
    } else if d == 2 {
        "2"
    } else if d == 3 {
        "3"
    } else if d == 4 {
        "4"
    } else if d == 5 {
        "5"
    } else if d == 6 {
        "6"
    } else if d == 7 {
        "7"
    } else if d == 8 {
        "8"
    } else {
        "9"
    };
    assert(s@ =~= seq![digit_char(d as int)]);
    s
}

fn append_decimal(text: &mut String, n: usize)
    ensures
        final(text)@ == old(text)@ + decimal(n as nat),
    decreases n,
{
    if n >= 10 {
        append_decimal(text, n / 10);
    }
    text.append(digit_str(n % 10));
    assert(text@ =~= old(text)@ + decimal(n as nat));
}

/// `prefix` followed by the decimal notation of `index`.
pub fn label(prefix: &str, index: usize) -> (text: String)
    ensures
        text@ == prefix@ + decimal(index as nat),
{
    let mut text = String::from_str(prefix);
    append_decimal(&mut text, index);
    text
}

impl GateCell {
    /// The cell sits at column `col` of kind `kind`, `row` rows into the
    /// window.
    pub open spec fn at(&self, kind: usize, col: usize, row: usize) -> bool {
        self.cell@ == seq![kind, col, row]
    }

    /// The column kind.
    pub open spec fn kind(&self) -> usize {
        self.cell@[0]
    }

    /// The column, counted within its kind.
    pub open spec fn col(&self) -> usize {
        self.cell@[1]
    }

    /// The row offset from the first row of the window.
    pub open spec fn row(&self) -> usize {
        self.cell@[2]
    }

    /// An advice cell.
    pub fn adv(col: usize, row: usize, dbg: &str) -> (g: GateCell)
        ensures
            g.at(ADVICE, col, row),
            g.name@ == dbg@,
    {
        GateCell { cell: [0, col, row], name: String::from_str(dbg) }
    }

    /// A fixed cell.
    pub fn fix(col: usize, row: usize, dbg: &str) -> (g: GateCell)
        ensures
            g.at(FIXED, col, row),
            g.name@ == dbg@,
    {
        GateCell { cell: [1, col, row], name: String::from_str(dbg) }
    }

    /// A selector.
    pub fn sel(col: usize, row: usize, dbg: &str) -> (g: GateCell)
        ensures
            g.at(SELECTOR, col, row),
            g.name@ == dbg@,
    {
        GateCell { cell: [2, col, row], name: String::from_str(dbg) }
    }

    /// The label of the cell.
    pub fn to_string(&self) -> (text: String)
        ensures
            text@ == self.name@,
    {
        self.name.clone()
    }
}

/// The layout of one round step.
pub struct RoundGate();

impl RoundGate {
    /// The flag that enables the round equations on a row.
    pub fn hsel(i: usize) -> (g: GateCell)
        ensures
            g.at(SELECTOR, 0, 0),
            g.name@ == "hsel"@ + decimal(i as nat),
    {
        let name = label("hsel", i);
        GateCell::sel(0, 0, name.as_str())
    }

    /// The second flag, `i` rows into the window.
    pub fn rsel(i: usize) -> (g: GateCell)
        ensures
            g.at(SELECTOR, 1, i),
            g.name@ == "hsel"@ + decimal(i as nat),
    {
        let name = label("hsel", i);
        GateCell::sel(1, i, name.as_str())
    }

    /// The additive constant of the round.
    pub fn offset() -> (g: GateCell)
        ensures
            g.at(FIXED, 0, 0),
            g.name@ == "offset"@,
    {
        GateCell::fix(0, 0, "offset")
    }

    /// `2^s` for the rotation amount `s` of the step.
    pub fn w1_r() -> (g: GateCell)
        ensures
            g.at(FIXED, 0, 1),
            g.name@ == "w1r"@,
    {
        GateCell::fix(0, 1, "w1r")
    }

    /// `2^(32 - s)` for the rotation amount `s` of the step.
    pub fn w1_rr() -> (g: GateCell)
        ensures
            g.at(FIXED, 0, 2),
            g.name@ == "w1rr"@,
    {
        GateCell::fix(0, 2, "w1rr")
    }

    /// State word `a`.
    pub fn a() -> (g: GateCell)
        ensures
            g.at(ADVICE, 0, 0),
            g.name@ == "a"@,
    {
        GateCell::adv(0, 0, "a")
    }

    /// The sum `a + r + x + offset` reduced to a word.
    pub fn w0() -> (g: GateCell)
        ensures
            g.at(ADVICE, 0, 1),
            g.name@ == "w0"@,
    {
        GateCell::adv(0, 1, "w0")
    }

    /// The sum `a + r + x + offset` before reduction.
    pub fn wb() -> (g: GateCell)
        ensures
            g.at(ADVICE, 0, 2),
            g.name@ == "wb"@,
    {
        GateCell::adv(0, 2, "wb")
    }

    /// The carry of `wb` over `w0`.
    pub fn wc() -> (g: GateCell)
        ensures
            g.at(ADVICE, 0, 3),
            g.name@ == "wc"@,
    {
        GateCell::adv(0, 3, "wc")
    }

    /// `w0` rotated by the rotation amount of the step.
    pub fn w1() -> (g: GateCell)
        ensures
            g.at(ADVICE, 0, 4),
            g.name@ == "w1"@,
    {
        GateCell::adv(0, 4, "w1")
    }

    /// State word `b`.
    pub fn b() -> (g: GateCell)
        ensures
            g.at(ADVICE, 1, 0),
            g.name@ == "b"@,
    {
        GateCell::adv(1, 0, "b")
    }

    /// State word `c`.
    pub fn c() -> (g: GateCell)
        ensures
            g.at(ADVICE, 2, 0),
            g.name@ == "c"@,
    {
        GateCell::adv(2, 0, "c")
    }

    /// State word `d`.
    pub fn d() -> (g: GateCell)
        ensures
            g.at(ADVICE, 3, 0),
            g.name@ == "d"@,
    {
        GateCell::adv(3, 0, "d")
    }

    /// The message word of the step.
    pub fn x() -> (g: GateCell)
        ensures
            g.at(ADVICE, 4, 0),
            g.name@ == "x"@,
    {
        GateCell::adv(4, 0, "x")
    }

    /// State word `e`.
    pub fn e() -> (g: GateCell)
        ensures
            g.at(ADVICE, 5, 0),
            g.name@ == "e"@,
    {
        GateCell::adv(5, 0, "e")
    }

    /// Limb `i` of `b`.
    pub fn blimb(i: usize) -> (g: GateCell)
        requires
            i < usize::MAX,
        ensures
            g.at(ADVICE, 1, (i + 1) as usize),
            g.name@ == "blimb"@ + decimal(i as nat),
    {
        let name = label("blimb", i);
        GateCell::adv(1, i + 1, name.as_str())
    }

    /// Limb `i` of `c`.
    pub fn climb(i: usize) -> (g: GateCell)
        requires
            i < usize::MAX,
        ensures
            g.at(ADVICE, 2, (i + 1) as usize),
            g.name@ == "climb"@ + decimal(i as nat),
    {
        let name = label("climb", i);
        GateCell::adv(2, i + 1, name.as_str())
    }

    /// Limb `i` of `d`.
    pub fn dlimb(i: usize) -> (g: GateCell)
        requires
            i < usize::MAX,
        ensures
            g.at(ADVICE, 3, (i + 1) as usize),
            g.name@ == "dlimb"@ + decimal(i as nat),
    {
        let name = label("dlimb", i);
        GateCell::adv(3, i + 1, name.as_str())
    }

    /// Limb `i` of the mixing function's output.
    pub fn rlimb(i: usize) -> (g: GateCell)
        requires
            i < usize::MAX,
        ensures
            g.at(ADVICE, 4, (i + 1) as usize),
            g.name@ == "rlimb"@ + decimal(i as nat),
    {
        let name = label("rlimb", i);
        GateCell::adv(4, i + 1, name.as_str())
    }

    /// The top `s` bits of `w0`.
    pub fn w1_h() -> (g: GateCell)
        ensures
            g.at(ADVICE, 5, 1),
            g.name@ == "w1h"@,
    {
        GateCell::adv(5, 1, "w1h")
    }

    /// The low `32 - s` bits of `w0`.
    pub fn w1_l() -> (g: GateCell)
        ensures
            g.at(ADVICE, 5, 2),
            g.name@ == "w1l"@,
    {
        GateCell::adv(5, 2, "w1l")
    }

    /// The next accumulator, `w1 + e` reduced to a word.
    pub fn a_next() -> (g: GateCell)
        ensures
            g.at(ADVICE, 5, 3),
            g.name@ == "anext"@,
    {
        GateCell::adv(5, 3, "anext")
    }

    /// `c` rotated by 10.
    pub fn c_next() -> (g: GateCell)
        ensures
            g.at(ADVICE, 6, 0),
            g.name@ == "cnext"@,
    {
        GateCell::adv(6, 0, "cnext")
    }

    /// The top 10 bits of `c`.
    pub fn w4_h() -> (g: GateCell)
        ensures
            g.at(ADVICE, 6, 1),
            g.name@ == "w4h"@,
    {
        GateCell::adv(6, 1, "w4h")
    }

    /// The low 22 bits of `c`.
    pub fn w4_l() -> (g: GateCell)
        ensures
            g.at(ADVICE, 6, 2),
            g.name@ == "w4l"@,
    {
        GateCell::adv(6, 2, "w4l")
    }

    /// The sum `w1 + e` before reduction.
    pub fn w2b() -> (g: GateCell)
        ensures
            g.at(ADVICE, 6, 3),
            g.name@ == "w2b"@,
    {
        GateCell::adv(6, 3, "w2b")
    }

    /// The carry of `w2b` over `a_next`.
    pub fn w2c() -> (g: GateCell)
        ensures
            g.at(ADVICE, 6, 4),
            g.name@ == "w2c"@,
    {
        GateCell::adv(6, 4, "w2c")
    }
}

/// The layout of the final merge of the initial state with both lines.
pub struct CompressGate();

impl CompressGate {
    /// The flag that enables the merge equations, `i` rows into the window.
    pub fn rsel(i: usize) -> (g: GateCell)
        ensures
            g.at(SELECTOR, 1, i),
            g.name@ == "hsel"@ + decimal(i as nat),
    {
        let name = label("hsel", i);
        GateCell::sel(1, i, name.as_str())
    }

    /// Word `a` of the initial state.
    pub fn a() -> (g: GateCell)
        ensures
            g.at(ADVICE, 0, 0),
            g.name@ == "a"@,
    {
        GateCell::adv(0, 0, "a")
    }

    /// Word `b` of the initial state.
    pub fn b() -> (g: GateCell)
        ensures
            g.at(ADVICE, 0, 1),
            g.name@ == "b"@,
    {
        GateCell::adv(0, 1, "b")
    }

    /// Word `c` of the initial state.
    pub fn c() -> (g: GateCell)
        ensures
            g.at(ADVICE, 0, 2),
            g.name@ == "c"@,
    {
        GateCell::adv(0, 2, "c")
    }

    /// Word `d` of the initial state.
    pub fn d() -> (g: GateCell)
        ensures
            g.at(ADVICE, 0, 3),
            g.name@ == "d"@,
    {
        GateCell::adv(0, 3, "d")
    }

    /// Word `e` of the initial state.
    pub fn e() -> (g: GateCell)
        ensures
            g.at(ADVICE, 0, 4),
            g.name@ == "e"@,
    {
        GateCell::adv(0, 4, "e")
    }

    /// Word `b` of the left line.
    pub fn b1() -> (g: GateCell)
        ensures
            g.at(ADVICE, 1, 0),
            g.name@ == "b1"@,
    {
        GateCell::adv(1, 0, "b1")
    }

    /// Word `c` of the left line.
    pub fn c1() -> (g: GateCell)
        ensures
            g.at(ADVICE, 1, 1),
            g.name@ == "c1"@,
    {
        GateCell::adv(1, 1, "c1")
    }

    /// Word `d` of the left line.
    pub fn d1() -> (g: GateCell)
        ensures
            g.at(ADVICE, 1, 2),
            g.name@ == "d1"@,
    {
        GateCell::adv(1, 2, "d1")
    }

    /// Word `e` of the left line.
    pub fn e1() -> (g: GateCell)
        ensures
            g.at(ADVICE, 1, 3),
            g.name@ == "e1"@,
    {
        GateCell::adv(1, 3, "e1")
    }

    /// Word `a` of the left line.
    pub fn a1() -> (g: GateCell)
        ensures
            g.at(ADVICE, 1, 4),
            g.name@ == "a1"@,
    {
        GateCell::adv(1, 4, "a1")
    }

    /// Word `c` of the right line.
    pub fn c2() -> (g: GateCell)
        ensures
            g.at(ADVICE, 2, 0),
            g.name@ == "c2"@,
    {
        GateCell::adv(2, 0, "c2")
    }

    /// Word `d` of the right line.
    pub fn d2() -> (g: GateCell)
        ensures
            g.at(ADVICE, 2, 1),
            g.name@ == "d2"@,
    {
        GateCell::adv(2, 1, "d2")
    }

    /// Word `e` of the right line.
    pub fn e2() -> (g: GateCell)
        ensures
            g.at(ADVICE, 2, 2),
            g.name@ == "e2"@,
    {
        GateCell::adv(2, 2, "e2")
    }

    /// Word `a` of the right line.
    pub fn a2() -> (g: GateCell)
        ensures
            g.at(ADVICE, 2, 3),
            g.name@ == "a2"@,
    {
        GateCell::adv(2, 3, "a2")
    }

    /// Word `b` of the right line.
    pub fn b2() -> (g: GateCell)
        ensures
            g.at(ADVICE, 2, 4),
            g.name@ == "b2"@,
    {
        GateCell::adv(2, 4, "b2")
    }

    /// The three-way sum of row 0 before reduction.
    pub fn sum0() -> (g: GateCell)
        ensures
            g.at(ADVICE, 3, 0),
            g.name@ == "sum0"@,
    {
        GateCell::adv(3, 0, "sum0")
    }

    /// The three-way sum of row 1 before reduction.
    pub fn sum1() -> (g: GateCell)
        ensures
            g.at(ADVICE, 3, 1),
            g.name@ == "sum1"@,
    {
        GateCell::adv(3, 1, "sum1")
    }

    /// The three-way sum of row 2 before reduction.
    pub fn sum2() -> (g: GateCell)
        ensures
            g.at(ADVICE, 3, 2),
            g.name@ == "sum2"@,
    {
        GateCell::adv(3, 2, "sum2")
    }

    /// The three-way sum of row 3 before reduction.
    pub fn sum3() -> (g: GateCell)
        ensures
            g.at(ADVICE, 3, 3),
            g.name@ == "sum3"@,
    {
        GateCell::adv(3, 3, "sum3")
    }

    /// The three-way sum of row 4 before reduction.
    pub fn sum4() -> (g: GateCell)
        ensures
            g.at(ADVICE, 3, 4),
            g.name@ == "sum4"@,
    {
        GateCell::adv(3, 4, "sum4")
    }

    /// The carry of `sum0` over its word.
    pub fn ca0() -> (g: GateCell)
        ensures
            g.at(ADVICE, 4, 0),
            g.name@ == "ca0"@,
    {
        GateCell::adv(4, 0, "ca0")
    }

    /// The carry of `sum1` over its word.
    pub fn ca1() -> (g: GateCell)
        ensures
            g.at(ADVICE, 4, 1),
            g.name@ == "ca1"@,
    {
        GateCell::adv(4, 1, "ca1")
    }

    /// The carry of `sum2` over its word.
    pub fn ca2() -> (g: GateCell)
        ensures
            g.at(ADVICE, 4, 2),
            g.name@ == "ca2"@,
    {
        GateCell::adv(4, 2, "ca2")
    }

    /// The carry of `sum3` over its word.
    pub fn ca3() -> (g: GateCell)
        ensures
            g.at(ADVICE, 4, 3),
            g.name@ == "ca3"@,
    {
        GateCell::adv(4, 3, "ca3")
    }

    /// The carry of `sum4` over its word.
    pub fn ca4() -> (g: GateCell)
        ensures
            g.at(ADVICE, 4, 4),
            g.name@ == "ca4"@,
    {
        GateCell::adv(4, 4, "ca4")
    }

    /// Word `b` of the merged state, `sum1` reduced to a word.
    pub fn bnew() -> (g: GateCell)
        ensures
            g.at(ADVICE, 5, 0),
            g.name@ == "bnew"@,
    {
        GateCell::adv(5, 0, "bnew")
    }

    /// Word `c` of the merged state, `sum2` reduced to a word.
    pub fn cnew() -> (g: GateCell)
        ensures
            g.at(ADVICE, 5, 1),
            g.name@ == "cnew"@,
    {
        GateCell::adv(5, 1, "cnew")
    }

    /// Word `d` of the merged state, `sum3` reduced to a word.
    pub fn dnew() -> (g: GateCell)
        ensures
            g.at(ADVICE, 5, 2),
            g.name@ == "dnew"@,
    {
        GateCell::adv(5, 2, "dnew")
    }

    /// Word `e` of the merged state, `sum4` reduced to a word.
    pub fn enew() -> (g: GateCell)
        ensures
            g.at(ADVICE, 5, 3),
            g.name@ == "enew"@,
    {
        GateCell::adv(5, 3, "enew")
    }

    /// Word `a` of the merged state, `sum0` reduced to a word.
    pub fn anew() -> (g: GateCell)
        ensures
            g.at(ADVICE, 5, 4),
            g.name@ == "anew"@,
    {
        GateCell::adv(5, 4, "anew")
    }
}

} // verus!
