use std::collections::{HashMap, HashSet};

use rmd160_circuit::chip::RMD160Chip;
use rmd160_circuit::config::RMD160Config;
use rmd160_circuit::plonk::{ConstraintSystem, Expression, Gate};
use rmd160_circuit::schedule::{Line, H0};
use rmd160_circuit::table::{AssignedCell, Assignment, Cell, Region};
use rmd160_circuit::trace::CONTENT_ROWS;

struct Rows {
    advice: HashMap<(usize, usize), u64>,
    fixed: HashMap<(usize, usize), u64>,
    enabled: HashSet<(usize, usize)>,
    copies: Vec<(Cell, Cell)>,
    last_row: usize,
}

fn rows_of(record: &[Assignment]) -> Rows {
    let mut rows = Rows {
        advice: HashMap::new(),
        fixed: HashMap::new(),
        enabled: HashSet::new(),
        copies: vec![],
        last_row: 0,
    };
    for entry in record {
        match *entry {
            Assignment::Advice { column, row, value } => {
                rows.advice.insert((column, row), value);
                rows.last_row = rows.last_row.max(row);
            }
            Assignment::Fixed { column, row, value } => {
                rows.fixed.insert((column, row), value);
                rows.last_row = rows.last_row.max(row);
            }
            Assignment::Enable { selector, row } => {
                rows.enabled.insert((selector, row));
            }
            Assignment::Equal { left, right } => rows.copies.push((left, right)),
        }
    }
    rows
}

fn eval(e: &Expression, rows: &Rows, row: usize) -> i128 {
    match e {
        Expression::Constant(c) => *c as i128,
        Expression::Selector(s) => rows.enabled.contains(&(*s, row)) as i128,
        Expression::Fixed { column, rotation } => {
            rows.fixed.get(&(*column, row + rotation)).copied().unwrap_or(0) as i128
        }
        Expression::Advice { column, rotation } => {
            rows.advice.get(&(*column, row + rotation)).copied().unwrap_or(0) as i128
        }
        Expression::Negated(inner) => -eval(inner, rows, row),
        Expression::Sum(l, r) => eval(l, rows, row) + eval(r, rows, row),
        Expression::Product(l, r) => eval(l, rows, row) * eval(r, rows, row),
        Expression::Scaled(inner, c) => eval(inner, rows, row) * (*c as i128),
    }
}

fn reads_assigned(e: &Expression, rows: &Rows, row: usize) -> bool {
    match e {
        Expression::Constant(_) | Expression::Selector(_) => true,
        Expression::Fixed { column, rotation } => rows.fixed.contains_key(&(*column, row + rotation)),
        Expression::Advice { column, rotation } => {
            rows.advice.contains_key(&(*column, row + rotation))
        }
        Expression::Negated(inner) | Expression::Scaled(inner, _) => reads_assigned(inner, rows, row),
        Expression::Sum(l, r) | Expression::Product(l, r) => {
            reads_assigned(l, rows, row) && reads_assigned(r, rows, row)
        }
    }
}

fn failures(gates: &[Gate], config: &RMD160Config, rows: &Rows) -> Vec<(String, usize, usize)> {
    let mut failed = vec![];
    for row in 0..rows.last_row + 10 {
        for (g, gate) in gates.iter().enumerate() {
            let selector = if g < 5 { config.selector[0] } else { config.selector[1] };
            let on = rows.enabled.contains(&(selector, row));
            for (k, poly) in gate.polys.iter().enumerate() {
                if eval(poly, rows, row) != 0 || (on && !reads_assigned(poly, rows, row)) {
                    failed.push((gate.name.clone(), k, row));
                }
            }
        }
    }
    failed
}

fn cells(region: usize, values: &[u32]) -> Vec<AssignedCell> {
    values
        .iter()
        .enumerate()
        .map(|(row, value)| AssignedCell {
            cell: Cell { region, kind: 0, column: 0, row },
            value: *value as u64,
        })
        .collect()
}

fn setup() -> (ConstraintSystem, RMD160Chip) {
    let mut cs = ConstraintSystem::new();
    let config = RMD160Chip::configure(&mut cs);
    (cs, RMD160Chip::new(config))
}

fn block() -> [u32; 16] {
    [1, 2, 3, 4, 5, 6, 7, 8, 9, 10, 11, 12, 13, 14, 15, 16]
}

fn content(chip: &RMD160Chip, state: &[u32; 5], message: &[u32; 16]) -> (Region, [AssignedCell; 5]) {
    let start: [AssignedCell; 5] = cells(1, state).try_into().unwrap();
    let inputs: [AssignedCell; 16] = cells(2, message).try_into().unwrap();
    chip.assign_content(0, &start, &inputs)
}

const ORDER_LEFT: [usize; 80] = [
    0, 1, 2, 3, 4, 5, 6, 7, 8, 9, 10, 11, 12, 13, 14, 15, 7, 4, 13, 1, 10, 6, 15, 3, 12, 0, 9, 5,
    2, 14, 11, 8, 3, 10, 14, 4, 9, 15, 8, 1, 2, 7, 0, 6, 13, 11, 5, 12, 1, 9, 11, 10, 0, 8, 12, 4,
    13, 3, 7, 15, 14, 5, 6, 2, 4, 0, 5, 9, 7, 12, 2, 10, 14, 1, 3, 8, 11, 6, 15, 13,
];

const ORDER_RIGHT: [usize; 80] = [
    5, 14, 7, 0, 9, 2, 11, 4, 13, 6, 15, 8, 1, 10, 3, 12, 6, 11, 3, 7, 0, 13, 5, 10, 14, 15, 8, 12,
    4, 9, 1, 2, 15, 5, 1, 3, 7, 14, 6, 9, 11, 8, 12, 2, 10, 0, 4, 13, 8, 6, 4, 1, 3, 11, 15, 0, 5,
    12, 2, 13, 9, 7, 10, 14, 12, 15, 10, 4, 1, 5, 8, 7, 6, 2, 13, 14, 0, 3, 9, 11,
];

const SHIFT_LEFT: [u32; 80] = [
    11, 14, 15, 12, 5, 8, 7, 9, 11, 13, 14, 15, 6, 7, 9, 8, 7, 6, 8, 13, 11, 9, 7, 15, 7, 12, 15,
    9, 11, 7, 13, 12, 11, 13, 6, 7, 14, 9, 13, 15, 14, 8, 13, 6, 5, 12, 7, 5, 11, 12, 14, 15, 14,
    15, 9, 8, 9, 14, 5, 6, 8, 6, 5, 12, 9, 15, 5, 11, 6, 8, 13, 12, 5, 12, 13, 14, 11, 8, 5, 6,
];

const SHIFT_RIGHT: [u32; 80] = [
    8, 9, 9, 11, 13, 15, 15, 5, 7, 7, 8, 11, 14, 14, 12, 6, 9, 13, 15, 7, 12, 8, 9, 11, 7, 7, 12,
    7, 6, 15, 13, 11, 9, 7, 15, 11, 8, 6, 6, 14, 12, 13, 5, 14, 13, 13, 7, 5, 15, 5, 8, 11, 14, 14,
    6, 14, 6, 9, 12, 9, 12, 5, 15, 8, 8, 5, 12, 9, 12, 5, 14, 6, 8, 13, 6, 5, 15, 13, 11, 11,
];

const K_LEFT: [u32; 5] = [0x00000000, 0x5A827999, 0x6ED9EBA1, 0x8F1BBCDC, 0xA953FD4E];
const K_RIGHT: [u32; 5] = [0x50A28BE6, 0x5C4DD124, 0x6D703EF3, 0x7A6D76E9, 0x00000000];

fn f(j: usize, x: u32, y: u32, z: u32) -> u32 {
    match j / 16 {
        0 => x ^ y ^ z,
        1 => (x & y) | (!x & z),
        2 => (x | !y) ^ z,
        3 => (x & z) | (y & !z),
        _ => x ^ (y | !z),
    }
}

/// The compression function as the RIPEMD-160 paper gives it: returns the
/// new chaining variables `h0` to `h4`.
fn reference(h: &[u32; 5], x: &[u32; 16]) -> [u32; 5] {
    let (mut a, mut b, mut c, mut d, mut e) = (h[0], h[1], h[2], h[3], h[4]);
    let (mut ap, mut bp, mut cp, mut dp, mut ep) = (h[0], h[1], h[2], h[3], h[4]);
    for j in 0..80 {
        let t = a
            .wrapping_add(f(j, b, c, d))
            .wrapping_add(x[ORDER_LEFT[j]])
            .wrapping_add(K_LEFT[j / 16])
            .rotate_left(SHIFT_LEFT[j])
            .wrapping_add(e);
        a = e;
        e = d;
        d = c.rotate_left(10);
        c = b;
        b = t;
        let t = ap
            .wrapping_add(f(79 - j, bp, cp, dp))
            .wrapping_add(x[ORDER_RIGHT[j]])
            .wrapping_add(K_RIGHT[j / 16])
            .rotate_left(SHIFT_RIGHT[j])
            .wrapping_add(ep);
        ap = ep;
        ep = dp;
        dp = cp.rotate_left(10);
        cp = bp;
        bp = t;
    }
    [
        h[1].wrapping_add(c).wrapping_add(dp),
        h[2].wrapping_add(d).wrapping_add(ep),
        h[3].wrapping_add(e).wrapping_add(ap),
        h[4].wrapping_add(a).wrapping_add(bp),
        h[0].wrapping_add(b).wrapping_add(cp),
    ]
}

fn digest_of(state: &[u32; 5], message: &[u32; 16]) -> [u32; 5] {
    let (_, chip) = setup();
    let (_, digest) = content(&chip, state, message);
    [
        digest[0].value as u32,
        digest[1].value as u32,
        digest[2].value as u32,
        digest[3].value as u32,
        digest[4].value as u32,
    ]
}

#[test]
fn reference_hashes_the_empty_message() {
    let mut padded = [0u32; 16];
    padded[0] = 0x80;
    let h = reference(&H0, &padded);
    let bytes: Vec<u8> = h.iter().flat_map(|w| w.to_le_bytes()).collect();
    let hex: String = bytes.iter().map(|b| format!("{:02x}", b)).collect();
    assert_eq!(hex, "9c1185a5c5e9fc54612808977ee8f548b2258d31");
}

#[test]
fn reference_hashes_abc() {
    let mut padded = [0u32; 16];
    padded[0] = u32::from_le_bytes([b'a', b'b', b'c', 0x80]);
    padded[14] = 24;
    let h = reference(&H0, &padded);
    let bytes: Vec<u8> = h.iter().flat_map(|w| w.to_le_bytes()).collect();
    let hex: String = bytes.iter().map(|b| format!("{:02x}", b)).collect();
    assert_eq!(hex, "8eb208f7e05d987a9b044a8e98c6b087f15a0bfc");
}

#[test]
fn digest_of_the_counting_block() {
    let digest = digest_of(&H0, &block());
    assert_eq!(digest, [0xe0dc33b7, 0x7afa4b5e, 0xf0ebd3a4, 0x569da0d7, 0xdce5cc61]);
}

#[test]
fn digest_is_the_reference_output_one_word_on() {
    let h = reference(&H0, &block());
    assert_eq!(h, [0x7afa4b5e, 0xf0ebd3a4, 0x569da0d7, 0xdce5cc61, 0xe0dc33b7]);
    assert_eq!(digest_of(&H0, &block()), [h[4], h[0], h[1], h[2], h[3]]);
}

#[test]
fn digest_follows_the_reference_on_other_blocks() {
    let mut seed: u32 = 0x9e3779b9;
    let mut next = move || {
        seed ^= seed << 13;
        seed ^= seed >> 17;
        seed ^= seed << 5;
        seed
    };
    for _ in 0..5 {
        let state = [next(), next(), next(), next(), next()];
        let mut message = [0u32; 16];
        for word in message.iter_mut() {
            *word = next();
        }
        let h = reference(&state, &message);
        assert_eq!(digest_of(&state, &message), [h[4], h[0], h[1], h[2], h[3]]);
    }
    let ones = reference(&[u32::MAX; 5], &[u32::MAX; 16]);
    assert_eq!(
        digest_of(&[u32::MAX; 5], &[u32::MAX; 16]),
        [ones[4], ones[0], ones[1], ones[2], ones[3]]
    );
}

#[test]
fn content_takes_eight_hundred_and_five_rows() {
    let (_, chip) = setup();
    let (region, digest) = content(&chip, &H0, &block());
    let rows = rows_of(&region.record);
    assert_eq!(region.index, 0);
    assert_eq!(rows.last_row, 804);
    assert_eq!(rows.last_row + 1, CONTENT_ROWS);
    assert_eq!(rows.advice.len(), 160 * 34 + 30);
    assert_eq!(rows.fixed.len(), 160 * 3);
    assert_eq!(rows.enabled.len(), 161);
    assert_eq!(rows.copies.len(), 160 * 6 + 15);
    assert_eq!(region.record.len(), 160 * 34 + 30 + 160 * 3 + 161 + 160 * 6 + 15);
    let config = chip.config();
    for step in 0..160 {
        assert!(rows.enabled.contains(&(config.selector[0], 5 * step)));
    }
    assert!(rows.enabled.contains(&(config.selector[1], 800)));
    let at = [804, 800, 801, 802, 803];
    for i in 0..5 {
        assert_eq!(
            digest[i].cell,
            Cell { region: 0, kind: 0, column: config.witness[5], row: at[i] }
        );
        assert_eq!(rows.advice[&(config.witness[5], at[i])], digest[i].value);
    }
}

#[test]
fn every_gate_holds_on_every_row() {
    let (cs, chip) = setup();
    let (region, _) = content(&chip, &H0, &block());
    let rows = rows_of(&region.record);
    assert_eq!(failures(&cs.gates, chip.config(), &rows), vec![]);
}

#[test]
fn every_gate_holds_for_the_largest_words() {
    let (cs, chip) = setup();
    let (region, _) = content(&chip, &[u32::MAX; 5], &[u32::MAX; 16]);
    let rows = rows_of(&region.record);
    assert_eq!(failures(&cs.gates, chip.config(), &rows), vec![]);
}

#[test]
fn a_changed_cell_breaks_a_gate() {
    let (cs, chip) = setup();
    let (region, _) = content(&chip, &H0, &block());
    let config = chip.config();
    for (column, row) in [(0, 1), (0, 4), (1, 2), (5, 3), (6, 0), (6, 4), (3, 800), (5, 804)] {
        let mut rows = rows_of(&region.record);
        let key = (config.witness[column], row);
        let value = rows.advice[&key];
        rows.advice.insert(key, value + 1);
        assert!(!failures(&cs.gates, config, &rows).is_empty(), "{:?}", key);
    }
    let mut rows = rows_of(&region.record);
    rows.advice.remove(&(config.witness[2], 3));
    assert!(!failures(&cs.gates, config, &rows).is_empty());
}

#[test]
fn every_copy_ties_equal_values() {
    let (_, chip) = setup();
    let start: [AssignedCell; 5] = cells(1, &H0).try_into().unwrap();
    let inputs: [AssignedCell; 16] = cells(2, &block()).try_into().unwrap();
    let (region, _) = chip.assign_content(0, &start, &inputs);
    let rows = rows_of(&region.record);
    let value = |cell: &Cell| -> u64 {
        if cell.region == 0 {
            assert_eq!(cell.kind, 0);
            rows.advice[&(cell.column, cell.row)]
        } else if cell.region == 1 {
            start[cell.row].value
        } else {
            inputs[cell.row].value
        }
    };
    for (left, right) in rows.copies.iter() {
        assert_eq!(left.region, 0);
        assert_eq!(value(left), value(right));
    }
    let config = chip.config();
    assert_eq!(
        rows.copies[0],
        (Cell { region: 0, kind: 0, column: config.witness[0], row: 0 }, start[0].cell)
    );
    assert_eq!(
        rows.copies[5],
        (Cell { region: 0, kind: 0, column: config.witness[4], row: 0 }, inputs[0].cell)
    );
    assert_eq!(
        rows.copies[6],
        (
            Cell { region: 0, kind: 0, column: config.witness[0], row: 5 },
            Cell { region: 0, kind: 0, column: config.witness[5], row: 0 }
        )
    );
}

#[test]
fn a_line_hands_on_its_last_state() {
    let (_, chip) = setup();
    let start: [AssignedCell; 5] = cells(1, &H0).try_into().unwrap();
    let inputs: [AssignedCell; 16] = cells(2, &block()).try_into().unwrap();
    let mut region = Region::new(3);
    let (left, cursor) = chip.assign_line(&mut region, 0, &start, &inputs, &Line::left());
    assert_eq!(cursor, 400);
    let values: Vec<u32> = left.iter().map(|c| c.value as u32).collect();
    assert_eq!(values, vec![0x4d03c553, 0x9991e325, 0x3b7f7d41, 0x544aa046, 0x9953ec5a]);
    let (right, cursor) = chip.assign_line(&mut region, cursor, &start, &inputs, &Line::right());
    assert_eq!(cursor, 800);
    let values: Vec<u32> = right.iter().map(|c| c.value as u32).collect();
    assert_eq!(values, vec![0xad176007, 0xcc0f251e, 0xe0052d91, 0x4fad2294, 0x03e65660]);
    let config = chip.config();
    let places = [(5, 0), (5, 3), (1, 0), (6, 0), (3, 0)];
    for i in 0..5 {
        assert_eq!(
            left[i].cell,
            Cell { region: 3, kind: 0, column: config.witness[places[i].0], row: 395 + places[i].1 }
        );
        assert_eq!(
            right[i].cell,
            Cell { region: 3, kind: 0, column: config.witness[places[i].0], row: 795 + places[i].1 }
        );
    }
}

#[test]
fn a_line_follows_its_schedule() {
    let (cs, chip) = setup();
    let order: Vec<Vec<usize>> = (0..5).map(|r| (0..16).map(|i| (i * 3 + r) % 16).collect()).collect();
    let shift: Vec<Vec<u32>> = (0..5).map(|r| (0..16).map(|i| 1 + ((i * 2 + r * 7) % 31) as u32).collect()).collect();
    let offset: Vec<u32> = vec![1, 0xffffffff, 0x80000000, 7, 0x12345678];
    let line = Line::new(&order, &shift, &offset, true).unwrap();
    let state = [0x01234567, 0x89abcdef, 0xfedcba98, 0x76543210, 0xf0e1d2c3];
    let start: [AssignedCell; 5] = cells(1, &state).try_into().unwrap();
    let inputs: [AssignedCell; 16] = cells(2, &block()).try_into().unwrap();
    let mut region = Region::new(0);
    let (out, cursor) = chip.assign_line(&mut region, 40, &start, &inputs, &line);
    assert_eq!(cursor, 440);
    let (mut a, mut b, mut c, mut d, mut e) = (state[0], state[1], state[2], state[3], state[4]);
    for j in 0..80 {
        let (r, i) = (j / 16, j % 16);
        let t = a
            .wrapping_add(f(79 - j, b, c, d))
            .wrapping_add(block()[order[r][i]])
            .wrapping_add(offset[r])
            .rotate_left(shift[r][i])
            .wrapping_add(e);
        a = e;
        e = d;
        d = c.rotate_left(10);
        c = b;
        b = t;
    }
    let values: Vec<u32> = out.iter().map(|c| c.value as u32).collect();
    assert_eq!(values, vec![a, b, c, d, e]);
    let rows = rows_of(&region.record);
    assert!(rows.advice.keys().all(|(_, row)| 40 <= *row && *row < 440));
    assert_eq!(failures(&cs.gates, chip.config(), &rows), vec![]);
}
