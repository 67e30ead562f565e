use rmd160_circuit::schedule::{Line, ScheduleError, H0, O, PO, PR, PROUNDS_OFFSET, R, ROUNDS_OFFSET};

fn order() -> Vec<Vec<usize>> {
    O.iter().map(|group| group.to_vec()).collect()
}

fn shift() -> Vec<Vec<u32>> {
    R.iter().map(|group| group.to_vec()).collect()
}

fn offset() -> Vec<u32> {
    ROUNDS_OFFSET.to_vec()
}

fn error_of(order: &Vec<Vec<usize>>, shift: &Vec<Vec<u32>>, offset: &Vec<u32>) -> Option<ScheduleError> {
    match Line::new(order, shift, offset, false) {
        Ok(_) => None,
        Err(e) => Some(e),
    }
}

#[test]
fn initial_state() {
    assert_eq!(H0, [0x67452301, 0xEFCDAB89, 0x98BADCFE, 0x10325476, 0xC3D2E1F0]);
}

#[test]
fn every_round_orders_all_sixteen_words() {
    for table in [O, PO] {
        for group in table {
            let mut seen = [false; 16];
            for index in group {
                assert!(!seen[index]);
                seen[index] = true;
            }
        }
    }
}

#[test]
fn every_rotation_amount_is_in_range() {
    for table in [R, PR] {
        for group in table {
            for amount in group {
                assert!(5 <= amount && amount <= 15);
            }
        }
    }
}

#[test]
fn standard_lines() {
    let left = Line::left();
    let right = Line::right();
    assert!(!left.mirrored());
    assert!(right.mirrored());
    for round in 0..5 {
        assert_eq!(left.offset_at(round), ROUNDS_OFFSET[round]);
        assert_eq!(right.offset_at(round), PROUNDS_OFFSET[round]);
        assert_eq!(left.order_of(round), O[round]);
        assert_eq!(right.order_of(round), PO[round]);
        for index in 0..16 {
            assert_eq!(left.order_at(round, index), O[round][index]);
            assert_eq!(left.shift_at(round, index), R[round][index]);
            assert_eq!(right.order_at(round, index), PO[round][index]);
            assert_eq!(right.shift_at(round, index), PR[round][index]);
        }
    }
    assert_eq!(left.shifts(), &R);
    assert_eq!(right.shifts(), &PR);
    assert_eq!(left.offsets(), &ROUNDS_OFFSET);
    assert_eq!(right.offsets(), &PROUNDS_OFFSET);
    assert_eq!(left.shift_at(0, 0), 11);
    assert_eq!(right.order_at(4, 15), 11);
    assert_eq!(left.offset_at(1), 0x5a827999);
}

#[test]
fn a_sound_schedule_is_accepted() {
    let line = Line::new(&order(), &shift(), &offset(), true).unwrap();
    assert!(line.mirrored());
    assert_eq!(line.order_at(1, 0), 7);
    assert_eq!(line.shift_at(4, 15), 6);
    assert_eq!(line.offset_at(4), 0xa953fd4e);
}

#[test]
fn boundary_rotation_amounts_are_accepted() {
    let mut amounts = shift();
    amounts[0][0] = 1;
    amounts[4][15] = 31;
    let line = Line::new(&order(), &amounts, &offset(), false).unwrap();
    assert_eq!(line.shift_at(0, 0), 1);
    assert_eq!(line.shift_at(4, 15), 31);
}

#[test]
fn wrong_number_of_groups_is_rejected() {
    let mut short = order();
    short.pop();
    assert_eq!(error_of(&short, &shift(), &offset()), Some(ScheduleError::GroupCount));
    let mut long = shift();
    long.push(vec![5; 16]);
    assert_eq!(error_of(&order(), &long, &offset()), Some(ScheduleError::GroupCount));
    assert_eq!(error_of(&order(), &shift(), &vec![0; 4]), Some(ScheduleError::GroupCount));
    assert_eq!(error_of(&vec![], &vec![], &vec![]), Some(ScheduleError::GroupCount));
}

#[test]
fn a_permutation_with_fewer_than_sixteen_entries_is_rejected() {
    for round in 0..5 {
        let mut short = order();
        short[round].pop();
        assert_eq!(error_of(&short, &shift(), &offset()), Some(ScheduleError::GroupLength));
        let mut empty = order();
        empty[round].clear();
        assert_eq!(error_of(&empty, &shift(), &offset()), Some(ScheduleError::GroupLength));
    }
    let mut long = order();
    long[2].push(0);
    assert_eq!(error_of(&long, &shift(), &offset()), Some(ScheduleError::GroupLength));
    let mut amounts = shift();
    amounts[3].pop();
    assert_eq!(error_of(&order(), &amounts, &offset()), Some(ScheduleError::GroupLength));
}

#[test]
fn an_index_out_of_range_is_rejected() {
    let mut bad = order();
    bad[4][15] = 16;
    assert_eq!(error_of(&bad, &shift(), &offset()), Some(ScheduleError::IndexOutOfRange));
    bad[4][15] = usize::MAX;
    assert_eq!(error_of(&bad, &shift(), &offset()), Some(ScheduleError::IndexOutOfRange));
}

#[test]
fn a_shift_of_zero_or_thirty_two_is_rejected() {
    for bad in [0u32, 32, 33, u32::MAX] {
        for (round, index) in [(0, 0), (2, 7), (4, 15)] {
            let mut amounts = shift();
            amounts[round][index] = bad;
            assert_eq!(
                error_of(&order(), &amounts, &offset()),
                Some(ScheduleError::ShiftOutOfRange)
            );
        }
    }
}

#[test]
fn the_first_defect_is_reported() {
    let mut bad_order = order();
    bad_order[0][0] = 99;
    let mut bad_shift = shift();
    bad_shift[0][0] = 0;
    assert_eq!(error_of(&bad_order, &bad_shift, &offset()), Some(ScheduleError::IndexOutOfRange));
    bad_shift[1].pop();
    assert_eq!(error_of(&bad_order, &bad_shift, &offset()), Some(ScheduleError::GroupLength));
    assert_eq!(error_of(&bad_order, &bad_shift, &vec![]), Some(ScheduleError::GroupCount));
}
