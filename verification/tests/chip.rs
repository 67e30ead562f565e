use rmd160_circuit::chip::RMD160Chip;
use rmd160_circuit::config::RMD160Config;
use rmd160_circuit::gate::{CompressGate, GateCell, RoundGate};
use rmd160_circuit::plonk::{ConstraintSystem, Expression};
use rmd160_circuit::schedule::{H0, O, R, ROUNDS_OFFSET};
use rmd160_circuit::table::{AssignedCell, Assignment, Cell, Region};

fn config() -> RMD160Config {
    RMD160Config { witness: [10, 11, 12, 13, 14, 15, 16], selector: [3, 4], fixed: [7] }
}

fn cell(region: usize, column: usize, row: usize, value: u64) -> AssignedCell {
    AssignedCell { cell: Cell { region, kind: 0, column, row }, value }
}

fn advice(record: &[Assignment], column: usize, row: usize) -> Option<u64> {
    record.iter().rev().find_map(|entry| match *entry {
        Assignment::Advice { column: c, row: r, value } if c == column && r == row => Some(value),
        _ => None,
    })
}

fn fixed(record: &[Assignment], column: usize, row: usize) -> Option<u64> {
    record.iter().rev().find_map(|entry| match *entry {
        Assignment::Fixed { column: c, row: r, value } if c == column && r == row => Some(value),
        _ => None,
    })
}

#[test]
fn configure_adds_columns_and_gates() {
    let mut cs = ConstraintSystem::new();
    cs.advice_column();
    cs.selector();
    let config = RMD160Chip::configure(&mut cs);
    assert_eq!(config.witness, [1, 2, 3, 4, 5, 6, 7]);
    assert_eq!(config.fixed, [0]);
    assert_eq!(config.selector, [1, 2]);
    assert!(config.is_valid());
    assert_eq!(cs.num_advice_columns, 8);
    assert_eq!(cs.num_fixed_columns, 1);
    assert_eq!(cs.num_selectors, 3);
    assert_eq!(cs.equality, vec![1, 2, 3, 4, 5, 6, 7]);
    let names: Vec<&str> = cs.gates.iter().map(|g| g.name.as_str()).collect();
    assert_eq!(
        names,
        vec!["sum with bound", "sum with w1 rol4", "limbs sum", "c rotate", "w0 rotate", "compress sum"]
    );
    let counts: Vec<usize> = cs.gates.iter().map(|g| g.polys.len()).collect();
    assert_eq!(counts, vec![2, 3, 3, 2, 2, 10]);
}

#[test]
fn configurations_with_a_shared_column_are_not_valid() {
    assert!(config().is_valid());
    let mut shared = config();
    shared.witness[6] = shared.witness[0];
    assert!(!shared.is_valid());
    let mut shared = config();
    shared.selector[1] = shared.selector[0];
    assert!(!shared.is_valid());
}

#[test]
fn chip_keeps_its_configuration() {
    let chip = RMD160Chip::new(config());
    assert_eq!(chip.config().witness, [10, 11, 12, 13, 14, 15, 16]);
    assert_eq!(chip.config().selector, [3, 4]);
    assert_eq!(chip.config().fixed, [7]);
}

#[test]
fn queries_follow_the_configuration() {
    let config = config();
    match config.get_expr(RoundGate::w1_l()) {
        Expression::Advice { column, rotation } => assert_eq!((column, rotation), (15, 2)),
        _ => panic!("advice expected"),
    }
    match config.get_expr(RoundGate::w1_rr()) {
        Expression::Fixed { column, rotation } => assert_eq!((column, rotation), (7, 2)),
        _ => panic!("fixed expected"),
    }
    match config.get_expr(RoundGate::hsel(0)) {
        Expression::Selector(s) => assert_eq!(s, 3),
        _ => panic!("selector expected"),
    }
    match config.get_expr(CompressGate::rsel(0)) {
        Expression::Selector(s) => assert_eq!(s, 4),
        _ => panic!("selector expected"),
    }
}

#[test]
fn assigning_a_cell_records_it() {
    let chip = RMD160Chip::new(config());
    let mut region = Region::new(9);
    let written = chip.assign_cell(&mut region, 100, RoundGate::a_next(), 42);
    assert_eq!(written, cell(9, 15, 103, 42));
    let constant = chip.assign_cell(&mut region, 100, RoundGate::w1_r(), 2048);
    assert_eq!(constant, AssignedCell { cell: Cell { region: 9, kind: 1, column: 7, row: 101 }, value: 2048 });
    assert_eq!(
        region.record,
        vec![
            Assignment::Advice { column: 15, row: 103, value: 42 },
            Assignment::Fixed { column: 7, row: 101, value: 2048 },
        ]
    );
}

#[test]
fn enabling_a_selector_records_it() {
    let chip = RMD160Chip::new(config());
    let mut region = Region::new(0);
    chip.enable_selector(&mut region, 25, RoundGate::hsel(0));
    chip.enable_selector(&mut region, 25, CompressGate::rsel(2));
    assert_eq!(
        region.record,
        vec![Assignment::Enable { selector: 3, row: 25 }, Assignment::Enable { selector: 4, row: 27 }]
    );
}

#[test]
fn binding_copies_the_value_and_ties_the_cells() {
    let chip = RMD160Chip::new(config());
    let mut region = Region::new(0);
    let source = cell(5, 2, 77, 0xdeadbeef);
    let bound = chip.bind_cell(&mut region, 10, RoundGate::c(), &source);
    assert_eq!(bound, cell(0, 12, 10, 0xdeadbeef));
    assert_eq!(
        region.record,
        vec![
            Assignment::Advice { column: 12, row: 10, value: 0xdeadbeef },
            Assignment::Equal { left: bound.cell, right: source.cell },
        ]
    );
}

#[test]
fn binding_twice_yields_equal_cells() {
    let chip = RMD160Chip::new(config());
    let mut region = Region::new(0);
    let source = cell(5, 2, 77, 123456789);
    let first = chip.bind_cell(&mut region, 0, RoundGate::a(), &source);
    let second = chip.bind_cell(&mut region, 5, CompressGate::e1(), &source);
    assert_ne!(first.cell, second.cell);
    assert_eq!(first.value, source.value);
    assert_eq!(second.value, source.value);
    assert_eq!(first.value, second.value);
    assert!(region.record.contains(&Assignment::Equal { left: first.cell, right: source.cell }));
    assert!(region.record.contains(&Assignment::Equal { left: second.cell, right: source.cell }));
}

#[test]
fn inputs_in_the_order_of_a_round() {
    let chip = RMD160Chip::new(config());
    let mut inputs = [cell(2, 0, 0, 0); 16];
    for i in 0..16 {
        inputs[i] = cell(2, 0, i, 100 + i as u64);
    }
    let rotated = chip.rotate_inputs(&inputs, O[1]);
    for i in 0..16 {
        assert_eq!(rotated[i], inputs[O[1][i]]);
    }
    assert_eq!(rotated[0].value, 107);
    assert_eq!(chip.rotate_inputs(&inputs, O[0]), inputs);
}

#[test]
fn one_round_step() {
    let chip = RMD160Chip::new(config());
    let mut region = Region::new(0);
    let mut previous = [cell(1, 0, 0, 0); 5];
    for i in 0..5 {
        previous[i] = cell(1, 0, i, H0[i] as u64);
    }
    let input = cell(2, 0, 0, 1);
    let next = chip.assign_next(&mut region, 20, &previous, &input, 0, 0, &R, &ROUNDS_OFFSET, false);
    assert_eq!(
        next,
        [
            cell(0, 15, 20, 0xc3d2e1f0),
            cell(0, 15, 23, 0x16030064),
            cell(0, 11, 20, 0xefcdab89),
            cell(0, 16, 20, 0xeb73fa62),
            cell(0, 13, 20, 0x10325476),
        ]
    );
    let record = &region.record;
    let expected = [
        (10, [0x67452301u64, 0xce8a4603, 0xce8a4603, 0, 0x52301e74]),
        (11, [0xefcdab89, 0x89, 0xab, 0xcd, 0xef]),
        (12, [0x98badcfe, 0xfe, 0xdc, 0xba, 0x98]),
        (13, [0x10325476, 0x76, 0x54, 0x32, 0x10]),
        (14, [1, 0x01, 0x23, 0x45, 0x67]),
        (16, [0xeb73fa62, 0x262, 0x3adcfe, 0x1_1603_0064, 1]),
    ];
    for (column, values) in expected {
        for offset in 0..5 {
            assert_eq!(advice(record, column, 20 + offset), Some(values[offset]), "{} {}", column, offset);
        }
    }
    assert_eq!(advice(record, 15, 20), Some(0xc3d2e1f0));
    assert_eq!(advice(record, 15, 21), Some(0x674));
    assert_eq!(advice(record, 15, 22), Some(0xa4603));
    assert_eq!(advice(record, 15, 23), Some(0x16030064));
    assert_eq!(advice(record, 15, 24), None);
    assert_eq!(fixed(record, 7, 20), Some(0));
    assert_eq!(fixed(record, 7, 21), Some(1 << 11));
    assert_eq!(fixed(record, 7, 22), Some(1 << 21));
    assert!(record.contains(&Assignment::Enable { selector: 3, row: 20 }));
    let copies: Vec<(Cell, Cell)> = record
        .iter()
        .filter_map(|entry| match *entry {
            Assignment::Equal { left, right } => Some((left, right)),
            _ => None,
        })
        .collect();
    assert_eq!(
        copies,
        vec![
            (cell(0, 10, 20, 0).cell, previous[0].cell),
            (cell(0, 11, 20, 0).cell, previous[1].cell),
            (cell(0, 12, 20, 0).cell, previous[2].cell),
            (cell(0, 13, 20, 0).cell, previous[3].cell),
            (cell(0, 15, 20, 0).cell, previous[4].cell),
            (cell(0, 14, 20, 0).cell, input.cell),
        ]
    );
    assert_eq!(record.len(), 34 + 3 + 1 + 6);
}

#[test]
fn one_round_step_at_the_boundary_rotations() {
    let chip = RMD160Chip::new(config());
    let mut shift = R;
    shift[2][5] = 1;
    shift[2][6] = 31;
    let mut previous = [cell(1, 0, 0, 0); 5];
    for i in 0..5 {
        previous[i] = cell(1, 0, i, u32::MAX as u64);
    }
    let input = cell(2, 0, 0, u32::MAX as u64);
    for (index, amount) in [(5usize, 1u32), (6, 31)] {
        let mut region = Region::new(0);
        let next = chip.assign_next(&mut region, 0, &previous, &input, 2, index, &shift, &[u32::MAX; 5], false);
        let record = &region.record;
        let w0 = advice(record, 10, 1).unwrap();
        let w1 = advice(record, 10, 4).unwrap();
        let high = advice(record, 15, 1).unwrap();
        let low = advice(record, 15, 2).unwrap();
        assert_eq!(fixed(record, 7, 1), Some(1 << amount));
        assert_eq!(fixed(record, 7, 2), Some(1 << (32 - amount)));
        assert!(high < (1 << amount) && low < (1 << (32 - amount)));
        assert_eq!(high * (1 << (32 - amount)) + low, w0);
        assert_eq!(low * (1 << amount) + high, w1);
        assert_eq!(w1, (w0 as u32).rotate_left(amount) as u64);
        assert_eq!(next[1].value, (w1 as u32).wrapping_add(u32::MAX) as u64);
    }
}

#[test]
fn final_merge() {
    let chip = RMD160Chip::new(config());
    let mut region = Region::new(0);
    let words = |region: usize, values: [u32; 5]| -> [AssignedCell; 5] {
        let mut cells = [cell(region, 0, 0, 0); 5];
        for i in 0..5 {
            cells[i] = cell(region, 0, i, values[i] as u64);
        }
        cells
    };
    let r0 = words(1, [0xffffffff, 1, 2, 3, 0x80000000]);
    let r1 = words(2, [10, 0xffffffff, 30, 40, 50]);
    let r2 = words(3, [100, 200, 0xffffffff, 400, 0x80000000]);
    let merged = chip.assign_compress(&mut region, 800, &r0, &r1, &r2);
    assert_eq!(
        merged,
        [
            cell(0, 15, 804, 0xfffffffd),
            cell(0, 15, 800, 431),
            cell(0, 15, 801, 0x8000002a),
            cell(0, 15, 802, 153),
            cell(0, 15, 803, 0x800000d2),
        ]
    );
    let record = &region.record;
    let rows = [
        (0xffffffffu64, 0xffffffffu64, 0xffffffffu64, 0x2_ffff_fffdu64, 2u64),
        (1, 30, 400, 431, 0),
        (2, 40, 0x80000000, 0x8000002a, 0),
        (3, 50, 100, 153, 0),
        (0x80000000, 10, 200, 0x800000d2, 0),
    ];
    for (i, (a, b, c, sum, carry)) in rows.iter().enumerate() {
        assert_eq!(advice(record, 10, 800 + i), Some(*a));
        assert_eq!(advice(record, 11, 800 + i), Some(*b));
        assert_eq!(advice(record, 12, 800 + i), Some(*c));
        assert_eq!(advice(record, 13, 800 + i), Some(*sum));
        assert_eq!(advice(record, 14, 800 + i), Some(*carry));
        assert_eq!(advice(record, 15, 800 + (i + 4) % 5), Some(merged[i].value));
        assert_eq!(merged[i].value + (carry << 32), *sum);
    }
    assert!(record.contains(&Assignment::Enable { selector: 4, row: 800 }));
    let copies = record.iter().filter(|e| matches!(e, Assignment::Equal { .. })).count();
    assert_eq!(copies, 15);
    assert!(record.contains(&Assignment::Equal { left: cell(0, 11, 804, 0).cell, right: r1[0].cell }));
    assert!(record.contains(&Assignment::Equal { left: cell(0, 12, 803, 0).cell, right: r2[0].cell }));
    assert_eq!(record.len(), 30 + 1 + 15);
}

#[test]
fn gate_cells_can_be_made_by_hand() {
    let chip = RMD160Chip::new(config());
    let mut region = Region::new(0);
    let written = chip.assign_cell(&mut region, 3, GateCell::adv(6, 2, "mine"), 5);
    assert_eq!(written, cell(0, 16, 5, 5));
}
