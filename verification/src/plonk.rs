//! Polynomial constraints over the cells of a table.
//!
//! An expression is a polynomial in the cells around a row. A gate is a named
//! list of such polynomials; a table meets it on a row when every polynomial
//! evaluates to zero there.

use crate::table::Table;
use vstd::prelude::*;

verus! {

/// A polynomial in the cells around a row.
pub enum Expression {
    /// A constant.
    Constant(u64),
    /// A selector, read on the row itself.
    Selector(usize),
    /// A fixed cell, `rotation` rows below the row.
    Fixed { column: usize, rotation: usize },
    /// An advice cell, `rotation` rows below the row.
    Advice { column: usize, rotation: usize },
    /// The negation of a polynomial.
    Negated(Box<Expression>),
    /// The sum of two polynomials.
    Sum(Box<Expression>, Box<Expression>),
    /// The product of two polynomials.
    Product(Box<Expression>, Box<Expression>),
    /// A polynomial times a constant.
    Scaled(Box<Expression>, u64),
}

impl Expression {
    /// The value of the polynomial on `row` of `table`.
    pub open spec fn eval(self, table: Table, row: int) -> int
        decreases self,
    {
        match self {
            Expression::Constant(c) => c as int,
            Expression::Selector(s) => table.selector_at(s as int, row),
            Expression::Fixed { column, rotation } => table.fixed_at(column as int, row + rotation),
            Expression::Advice { column, rotation } => table.advice_at(
                column as int,
                row + rotation,
            ),
            Expression::Negated(e) => -e.eval(table, row),
            Expression::Sum(l, r) => l.eval(table, row) + r.eval(table, row),
            Expression::Product(l, r) => l.eval(table, row) * r.eval(table, row),
            Expression::Scaled(e, c) => e.eval(table, row) * c,
        }
    }

    /// Every cell that the polynomial reads on `row` has been assigned.
    pub open spec fn reads_assigned(self, table: Table, row: int) -> bool
        decreases self,
    {
        match self {
            Expression::Constant(_) => true,
            Expression::Selector(_) => true,
            Expression::Fixed { column, rotation } => table.fixed.dom().contains(
                (column as int, row + rotation),
            ),
            Expression::Advice { column, rotation } => table.advice.dom().contains(
                (column as int, row + rotation),
            ),
            Expression::Negated(e) => e.reads_assigned(table, row),
            Expression::Sum(l, r) => l.reads_assigned(table, row) && r.reads_assigned(table, row),
            Expression::Product(l, r) => l.reads_assigned(table, row) && r.reads_assigned(
                table,
                row,
            ),
            Expression::Scaled(e, _) => e.reads_assigned(table, row),
        }
    }

    /// `self + other`.
    pub fn plus(self, other: Expression) -> (sum: Expression)
        ensures
            sum == Expression::Sum(Box::new(self), Box::new(other)),
            forall|table: Table, row: int| #[trigger]
                sum.eval(table, row) == self.eval(table, row) + other.eval(table, row),
            forall|table: Table, row: int| #[trigger]
                sum.reads_assigned(table, row) == (self.reads_assigned(table, row)
                    && other.reads_assigned(table, row)),
    {
        Expression::Sum(Box::new(self), Box::new(other))
    }

    /// `-self`.
    pub fn negated(self) -> (negation: Expression)
        ensures
            negation == Expression::Negated(Box::new(self)),
            forall|table: Table, row: int| #[trigger]
                negation.eval(table, row) == -self.eval(table, row),
            forall|table: Table, row: int| #[trigger]
                negation.reads_assigned(table, row) == self.reads_assigned(table, row),
    {
        Expression::Negated(Box::new(self))
    }

    /// `self - other`, as the sum of `self` and the negation of `other`.
    pub fn minus(self, other: Expression) -> (difference: Expression)
        ensures
            difference == Expression::Sum(
                Box::new(self),
                Box::new(Expression::Negated(Box::new(other))),
            ),
            forall|table: Table, row: int| #[trigger]
                difference.eval(table, row) == self.eval(table, row) - other.eval(table, row),
            forall|table: Table, row: int| #[trigger]
                difference.reads_assigned(table, row) == (self.reads_assigned(table, row)
                    && other.reads_assigned(table, row)),
    {
        let negation = other.negated();
        self.plus(negation)
    }

    /// `self * other`.
    pub fn times(self, other: Expression) -> (product: Expression)
        ensures
            product == Expression::Product(Box::new(self), Box::new(other)),
            forall|table: Table, row: int| #[trigger]
                product.eval(table, row) == self.eval(table, row) * other.eval(table, row),
            forall|table: Table, row: int| #[trigger]
                product.reads_assigned(table, row) == (self.reads_assigned(table, row)
                    && other.reads_assigned(table, row)),
    {
        Expression::Product(Box::new(self), Box::new(other))
    }

    /// `self * factor` for a constant `factor`.
    pub fn scaled(self, factor: u64) -> (product: Expression)
        ensures
            product == Expression::Scaled(Box::new(self), factor),
            forall|table: Table, row: int| #[trigger]
                product.eval(table, row) == self.eval(table, row) * factor,
            forall|table: Table, row: int| #[trigger]
                product.reads_assigned(table, row) == self.reads_assigned(table, row),
    {
        Expression::Scaled(Box::new(self), factor)
    }

    /// A copy of the polynomial.
    pub fn duplicate(&self) -> (copy: Expression)
        ensures
            copy == *self,
        decreases *self,
    {
        match self {
            Expression::Constant(c) => Expression::Constant(*c),
            Expression::Selector(s) => Expression::Selector(*s),
            Expression::Fixed { column, rotation } => Expression::Fixed {
                column: *column,
                rotation: *rotation,
            },
            Expression::Advice { column, rotation } => Expression::Advice {
                column: *column,
                rotation: *rotation,
            },
            Expression::Negated(e) => Expression::Negated(Box::new(e.duplicate())),
            Expression::Sum(l, r) => Expression::Sum(
                Box::new(l.duplicate()),
                Box::new(r.duplicate()),
            ),
            Expression::Product(l, r) => Expression::Product(
                Box::new(l.duplicate()),
                Box::new(r.duplicate()),
            ),
            Expression::Scaled(e, c) => Expression::Scaled(Box::new(e.duplicate()), *c),
        }
    }
}

/// Every polynomial of the list vanishes on `row`.
pub open spec fn vanish(polys: Seq<Expression>, table: Table, row: int) -> bool {
    forall|k: int| 0 <= k < polys.len() ==> (#[trigger] polys[k]).eval(table, row) == 0
}

/// Every cell that a polynomial of the list reads on `row` has been
/// assigned.
pub open spec fn all_assigned(polys: Seq<Expression>, table: Table, row: int) -> bool {
    forall|k: int| 0 <= k < polys.len() ==> (#[trigger] polys[k]).reads_assigned(table, row)
}

/// A named list of polynomials that have to vanish on every row.
pub struct Gate {
    /// What the list is called.
    pub name: String,
    /// The polynomials, each of which has to vanish.
    pub polys: Vec<Expression>,
}

impl Gate {
    /// Every polynomial vanishes on `row`.
    pub open spec fn holds(self, table: Table, row: int) -> bool {
        vanish(self.polys@, table, row)
    }

    /// Every cell that a polynomial reads on `row` has been assigned.
    pub open spec fn reads_assigned(self, table: Table, row: int) -> bool {
        all_assigned(self.polys@, table, row)
    }
}

/// The shape of a circuit: how many columns of each kind it has, on which
/// advice columns cells may be tied by copy constraints, and its gates.
pub struct ConstraintSystem {
    /// The number of advice columns.
    pub num_advice_columns: usize,
    /// The number of fixed columns.
    pub num_fixed_columns: usize,
    /// The number of selectors.
    pub num_selectors: usize,
    /// The advice columns whose cells may take part in copy constraints.
    pub equality: Vec<usize>,
    /// The gates.
    pub gates: Vec<Gate>,
}

impl ConstraintSystem {
    /// A circuit without columns and gates.
    pub fn new() -> (cs: ConstraintSystem)
        ensures
            cs.num_advice_columns == 0,
            cs.num_fixed_columns == 0,
            cs.num_selectors == 0,
            cs.equality@.len() == 0,
            cs.gates@.len() == 0,
    {
        ConstraintSystem {
            num_advice_columns: 0,
            num_fixed_columns: 0,
            num_selectors: 0,
            equality: Vec::new(),
            gates: Vec::new(),
        }
    }

    /// Adds an advice column and returns its index.
    pub fn advice_column(&mut self) -> (column: usize)
        requires
            old(self).num_advice_columns < usize::MAX,
        ensures
            column == old(self).num_advice_columns,
            final(self).num_advice_columns == column + 1,
            final(self).num_fixed_columns == old(self).num_fixed_columns,
            final(self).num_selectors == old(self).num_selectors,
            final(self).equality@ == old(self).equality@,
            final(self).gates@ == old(self).gates@,
    {
        let column: usize = self.num_advice_columns;
        self.num_advice_columns = column + 1;
        column
    }

    /// Adds a fixed column and returns its index.
    pub fn fixed_column(&mut self) -> (column: usize)
        requires
            old(self).num_fixed_columns < usize::MAX,
        ensures
            column == old(self).num_fixed_columns,
            final(self).num_fixed_columns == column + 1,
            final(self).num_advice_columns == old(self).num_advice_columns,
            final(self).num_selectors == old(self).num_selectors,
            final(self).equality@ == old(self).equality@,
            final(self).gates@ == old(self).gates@,
    {
        let column: usize = self.num_fixed_columns;
        self.num_fixed_columns = column + 1;
        column
    }

    /// Adds a selector and returns its index.
    pub fn selector(&mut self) -> (selector: usize)
        requires
            old(self).num_selectors < usize::MAX,
        ensures
            selector == old(self).num_selectors,
            final(self).num_selectors == selector + 1,
            final(self).num_advice_columns == old(self).num_advice_columns,
            final(self).num_fixed_columns == old(self).num_fixed_columns,
            final(self).equality@ == old(self).equality@,
            final(self).gates@ == old(self).gates@,
    {
        let selector: usize = self.num_selectors;
        self.num_selectors = selector + 1;
        selector
    }

    /// Lets the cells of advice column `column` take part in copy
    /// constraints.
    pub fn enable_equality(&mut self, column: usize)
        ensures
            final(self).equality@ == old(self).equality@.push(column),
            final(self).num_advice_columns == old(self).num_advice_columns,
            final(self).num_fixed_columns == old(self).num_fixed_columns,
            final(self).num_selectors == old(self).num_selectors,
            final(self).gates@ == old(self).gates@,
    {
        self.equality.push(column);
    }

    /// Adds a gate with the given name and polynomials.
    pub fn create_gate(&mut self, name: &str, polys: Vec<Expression>)
        ensures
            final(self).gates@.len() == old(self).gates@.len() + 1,
            final(self).gates@.last().name@ == name@,
            final(self).gates@.last().polys == polys,
            final(self).gates@.drop_last() == old(self).gates@,
            final(self).num_advice_columns == old(self).num_advice_columns,
            final(self).num_fixed_columns == old(self).num_fixed_columns,
            final(self).num_selectors == old(self).num_selectors,
            final(self).equality@ == old(self).equality@,
    {
        self.gates.push(Gate { name: String::from_str(name), polys });
        assert(self.gates@.drop_last() == old(self).gates@);
    }

    /// Every gate holds on every row of `table`.
    pub open spec fn satisfied_by(self, table: Table) -> bool {
        forall|g: int, row: int|
            0 <= g < self.gates@.len() && 0 <= row ==> #[trigger] self.gates@[g].holds(table, row)
    }
}

} // verus!
