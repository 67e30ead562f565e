use rmd160_circuit::gate::{label, CompressGate, GateCell, RoundGate, ADVICE, FIXED, SELECTOR};

fn check(cell: GateCell, kind: usize, col: usize, row: usize, name: &str) {
    assert_eq!(cell.cell, [kind, col, row], "{}", name);
    assert_eq!(cell.to_string(), name);
}

#[test]
fn kinds_of_cells() {
    check(GateCell::adv(3, 4, "x"), ADVICE, 3, 4, "x");
    check(GateCell::fix(0, 2, "y"), FIXED, 0, 2, "y");
    check(GateCell::sel(1, 0, "z"), SELECTOR, 1, 0, "z");
    assert_eq!((ADVICE, FIXED, SELECTOR), (0, 1, 2));
}

#[test]
fn labels_count_in_decimal() {
    assert_eq!(label("hsel", 0), "hsel0");
    assert_eq!(label("blimb", 3), "blimb3");
    assert_eq!(label("", 10), "10");
    assert_eq!(label("row", 1234567890), "row1234567890");
    assert_eq!(label("n", usize::MAX), format!("n{}", usize::MAX));
}

#[test]
fn round_layout() {
    check(RoundGate::hsel(0), SELECTOR, 0, 0, "hsel0");
    check(RoundGate::hsel(7), SELECTOR, 0, 0, "hsel7");
    check(RoundGate::rsel(3), SELECTOR, 1, 3, "hsel3");
    check(RoundGate::offset(), FIXED, 0, 0, "offset");
    check(RoundGate::w1_r(), FIXED, 0, 1, "w1r");
    check(RoundGate::w1_rr(), FIXED, 0, 2, "w1rr");
    check(RoundGate::a(), ADVICE, 0, 0, "a");
    check(RoundGate::w0(), ADVICE, 0, 1, "w0");
    check(RoundGate::wb(), ADVICE, 0, 2, "wb");
    check(RoundGate::wc(), ADVICE, 0, 3, "wc");
    check(RoundGate::w1(), ADVICE, 0, 4, "w1");
    check(RoundGate::b(), ADVICE, 1, 0, "b");
    check(RoundGate::c(), ADVICE, 2, 0, "c");
    check(RoundGate::d(), ADVICE, 3, 0, "d");
    check(RoundGate::x(), ADVICE, 4, 0, "x");
    check(RoundGate::e(), ADVICE, 5, 0, "e");
    check(RoundGate::w1_h(), ADVICE, 5, 1, "w1h");
    check(RoundGate::w1_l(), ADVICE, 5, 2, "w1l");
    check(RoundGate::a_next(), ADVICE, 5, 3, "anext");
    check(RoundGate::c_next(), ADVICE, 6, 0, "cnext");
    check(RoundGate::w4_h(), ADVICE, 6, 1, "w4h");
    check(RoundGate::w4_l(), ADVICE, 6, 2, "w4l");
    check(RoundGate::w2b(), ADVICE, 6, 3, "w2b");
    check(RoundGate::w2c(), ADVICE, 6, 4, "w2c");
}

#[test]
fn round_limbs() {
    for i in 0..4 {
        check(RoundGate::blimb(i), ADVICE, 1, i + 1, &format!("blimb{}", i));
        check(RoundGate::climb(i), ADVICE, 2, i + 1, &format!("climb{}", i));
        check(RoundGate::dlimb(i), ADVICE, 3, i + 1, &format!("dlimb{}", i));
        check(RoundGate::rlimb(i), ADVICE, 4, i + 1, &format!("rlimb{}", i));
    }
}

#[test]
fn round_cells_do_not_collide() {
    let mut seen = vec![];
    let mut cells = vec![
        RoundGate::a(),
        RoundGate::w0(),
        RoundGate::wb(),
        RoundGate::wc(),
        RoundGate::w1(),
        RoundGate::b(),
        RoundGate::c(),
        RoundGate::d(),
        RoundGate::x(),
        RoundGate::e(),
        RoundGate::w1_h(),
        RoundGate::w1_l(),
        RoundGate::a_next(),
        RoundGate::c_next(),
        RoundGate::w4_h(),
        RoundGate::w4_l(),
        RoundGate::w2b(),
        RoundGate::w2c(),
    ];
    for i in 0..4 {
        cells.push(RoundGate::blimb(i));
        cells.push(RoundGate::climb(i));
        cells.push(RoundGate::dlimb(i));
        cells.push(RoundGate::rlimb(i));
    }
    assert_eq!(cells.len(), 34);
    for cell in cells {
        assert!(cell.cell[1] < 7 && cell.cell[2] < 5);
        assert!(!seen.contains(&cell.cell), "{}", cell.to_string());
        seen.push(cell.cell);
    }
}

#[test]
fn compress_layout() {
    check(CompressGate::rsel(0), SELECTOR, 1, 0, "hsel0");
    check(CompressGate::rsel(2), SELECTOR, 1, 2, "hsel2");
    check(CompressGate::a(), ADVICE, 0, 0, "a");
    check(CompressGate::b(), ADVICE, 0, 1, "b");
    check(CompressGate::c(), ADVICE, 0, 2, "c");
    check(CompressGate::d(), ADVICE, 0, 3, "d");
    check(CompressGate::e(), ADVICE, 0, 4, "e");
    check(CompressGate::b1(), ADVICE, 1, 0, "b1");
    check(CompressGate::c1(), ADVICE, 1, 1, "c1");
    check(CompressGate::d1(), ADVICE, 1, 2, "d1");
    check(CompressGate::e1(), ADVICE, 1, 3, "e1");
    check(CompressGate::a1(), ADVICE, 1, 4, "a1");
    check(CompressGate::c2(), ADVICE, 2, 0, "c2");
    check(CompressGate::d2(), ADVICE, 2, 1, "d2");
    check(CompressGate::e2(), ADVICE, 2, 2, "e2");
    check(CompressGate::a2(), ADVICE, 2, 3, "a2");
    check(CompressGate::b2(), ADVICE, 2, 4, "b2");
    check(CompressGate::sum0(), ADVICE, 3, 0, "sum0");
    check(CompressGate::sum1(), ADVICE, 3, 1, "sum1");
    check(CompressGate::sum2(), ADVICE, 3, 2, "sum2");
    check(CompressGate::sum3(), ADVICE, 3, 3, "sum3");
    check(CompressGate::sum4(), ADVICE, 3, 4, "sum4");
    check(CompressGate::ca0(), ADVICE, 4, 0, "ca0");
    check(CompressGate::ca1(), ADVICE, 4, 1, "ca1");
    check(CompressGate::ca2(), ADVICE, 4, 2, "ca2");
    check(CompressGate::ca3(), ADVICE, 4, 3, "ca3");
    check(CompressGate::ca4(), ADVICE, 4, 4, "ca4");
    check(CompressGate::bnew(), ADVICE, 5, 0, "bnew");
    check(CompressGate::cnew(), ADVICE, 5, 1, "cnew");
    check(CompressGate::dnew(), ADVICE, 5, 2, "dnew");
    check(CompressGate::enew(), ADVICE, 5, 3, "enew");
    check(CompressGate::anew(), ADVICE, 5, 4, "anew");
}
