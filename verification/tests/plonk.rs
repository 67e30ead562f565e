use rmd160_circuit::plonk::{ConstraintSystem, Expression};
use rmd160_circuit::table::{AssignedCell, Assignment, Cell, Region};

fn show(e: &Expression) -> String {
    match e {
        Expression::Constant(c) => format!("{}", c),
        Expression::Selector(s) => format!("s{}", s),
        Expression::Fixed { column, rotation } => format!("f{}@{}", column, rotation),
        Expression::Advice { column, rotation } => format!("a{}@{}", column, rotation),
        Expression::Negated(inner) => format!("-{}", show(inner)),
        Expression::Sum(l, r) => format!("({} + {})", show(l), show(r)),
        Expression::Product(l, r) => format!("({} * {})", show(l), show(r)),
        Expression::Scaled(inner, c) => format!("({} x {})", show(inner), c),
    }
}

fn a(column: usize, rotation: usize) -> Expression {
    Expression::Advice { column, rotation }
}

#[test]
fn expressions_are_built_as_written() {
    assert_eq!(show(&a(0, 1).plus(a(2, 3))), "(a0@1 + a2@3)");
    assert_eq!(show(&a(0, 1).minus(a(2, 3))), "(a0@1 + -a2@3)");
    assert_eq!(show(&a(0, 1).times(Expression::Selector(4))), "(a0@1 * s4)");
    assert_eq!(show(&a(0, 1).scaled(256)), "(a0@1 x 256)");
    assert_eq!(show(&a(0, 1).negated()), "-a0@1");
    let e = a(1, 0)
        .scaled(1 << 32)
        .plus(Expression::Fixed { column: 0, rotation: 2 })
        .minus(Expression::Constant(7))
        .times(Expression::Selector(0));
    assert_eq!(show(&e), "((((a1@0 x 4294967296) + f0@2) + -7) * s0)");
    assert_eq!(show(&e.duplicate()), show(&e));
}

#[test]
fn constraint_system_counts_its_columns() {
    let mut cs = ConstraintSystem::new();
    assert_eq!((cs.num_advice_columns, cs.num_fixed_columns, cs.num_selectors), (0, 0, 0));
    assert_eq!(cs.advice_column(), 0);
    assert_eq!(cs.advice_column(), 1);
    assert_eq!(cs.fixed_column(), 0);
    assert_eq!(cs.selector(), 0);
    assert_eq!(cs.selector(), 1);
    assert_eq!(cs.selector(), 2);
    cs.enable_equality(1);
    cs.create_gate("first", vec![a(0, 0), a(1, 1)]);
    cs.create_gate("second", vec![]);
    assert_eq!((cs.num_advice_columns, cs.num_fixed_columns, cs.num_selectors), (2, 1, 3));
    assert_eq!(cs.equality, vec![1]);
    assert_eq!(cs.gates.len(), 2);
    assert_eq!(cs.gates[0].name, "first");
    assert_eq!(cs.gates[0].polys.len(), 2);
    assert_eq!(show(&cs.gates[0].polys[1]), "a1@1");
    assert_eq!(cs.gates[1].name, "second");
    assert_eq!(cs.gates[1].polys.len(), 0);
}

#[test]
fn region_records_in_order() {
    let mut region = Region::new(4);
    assert_eq!(region.index, 4);
    assert!(region.record.is_empty());
    let first = region.assign_advice(2, 3, 10);
    let second = region.assign_fixed(0, 3, 20);
    region.enable_selector(1, 3);
    region.constrain_equal(first.cell, second.cell);
    assert_eq!(first, AssignedCell { cell: Cell { region: 4, kind: 0, column: 2, row: 3 }, value: 10 });
    assert_eq!(second, AssignedCell { cell: Cell { region: 4, kind: 1, column: 0, row: 3 }, value: 20 });
    assert_eq!(
        region.record,
        vec![
            Assignment::Advice { column: 2, row: 3, value: 10 },
            Assignment::Fixed { column: 0, row: 3, value: 20 },
            Assignment::Enable { selector: 1, row: 3 },
            Assignment::Equal { left: first.cell, right: second.cell },
        ]
    );
}
