//! The gates of the chip: the polynomials that state the equations of a
//! round step and of the final merge.

use crate::chip::RMD160Chip;
use crate::config::{
    c_rotate, compress_assigned, compress_equations, lemma_round_assigned, limbs_sum, merge_row,
    round_assigned, sum_with_bound, sum_with_rotated, w0_rotate, RMD160Config,
};
use crate::gate::{CompressGate, GateCell, RoundGate, ADVICE};
use crate::plonk::{all_assigned, vanish, ConstraintSystem, Expression};
use crate::table::Table;
use vstd::prelude::*;

verus! {

/// A polynomial times a flag vanishes exactly when the flag is off or the
/// polynomial vanishes.
pub proof fn lemma_gated(e: int, flag: int)
    requires
        flag == 0 || flag == 1,
    ensures
        (e * flag == 0) <==> (flag == 1 ==> e == 0),
{
    assert(flag == 0 ==> e * flag == 0) by (nonlinear_arith);
    assert(flag == 1 ==> e * flag == e) by (nonlinear_arith);
}

/// What `configure` adds to a constraint system: seven advice columns open
/// to copy constraints, one fixed column, two selectors, and six gates. The
/// first five gates state the equations of a round step wherever the first
/// selector is on; the sixth states the equations of the final merge
/// wherever the second selector is on.
pub open spec fn configured(
    before: ConstraintSystem,
    after: ConstraintSystem,
    config: RMD160Config,
) -> bool {
    let n = before.gates@.len() as int;
    &&& forall|i: int| 0 <= i < 7 ==> config.witness@[i] == before.num_advice_columns + i
    &&& config.fixed@[0] == before.num_fixed_columns
    &&& forall|i: int| 0 <= i < 2 ==> config.selector@[i] == before.num_selectors + i
    &&& config.wf()
    &&& after.num_advice_columns == before.num_advice_columns + 7
    &&& after.num_fixed_columns == before.num_fixed_columns + 1
    &&& after.num_selectors == before.num_selectors + 2
    &&& after.equality@ == before.equality@ + config.witness@
    &&& after.gates@.len() == n + 6
    &&& after.gates@.subrange(0, n) == before.gates@
    &&& after.gates@[n].name@ == "sum with bound"@
    &&& after.gates@[n + 1].name@ == "sum with w1 rol4"@
    &&& after.gates@[n + 2].name@ == "limbs sum"@
    &&& after.gates@[n + 3].name@ == "c rotate"@
    &&& after.gates@[n + 4].name@ == "w0 rotate"@
    &&& after.gates@[n + 5].name@ == "compress sum"@
    &&& forall|table: Table, row: int| #[trigger]
        after.gates@[n].holds(table, row) <==> (config.sel(table, row, 0) == 1 ==> sum_with_bound(
            config,
            table,
            row,
        ))
    &&& forall|table: Table, row: int| #[trigger]
        after.gates@[n + 1].holds(table, row) <==> (config.sel(table, row, 0) == 1
            ==> sum_with_rotated(config, table, row))
    &&& forall|table: Table, row: int| #[trigger]
        after.gates@[n + 2].holds(table, row) <==> (config.sel(table, row, 0) == 1 ==> limbs_sum(
            config,
            table,
            row,
        ))
    &&& forall|table: Table, row: int| #[trigger]
        after.gates@[n + 3].holds(table, row) <==> (config.sel(table, row, 0) == 1 ==> c_rotate(
            config,
            table,
            row,
        ))
    &&& forall|table: Table, row: int| #[trigger]
        after.gates@[n + 4].holds(table, row) <==> (config.sel(table, row, 0) == 1 ==> w0_rotate(
            config,
            table,
            row,
        ))
    &&& forall|table: Table, row: int| #[trigger]
        after.gates@[n + 5].holds(table, row) <==> (config.sel(table, row, 1) == 1
            ==> compress_equations(config, table, row))
    &&& forall|table: Table, row: int, g: int|
        n <= g < n + 5 && round_assigned(config, table, row) ==> #[trigger] after.gates@[g].reads_assigned(
            table,
            row,
        )
    &&& forall|table: Table, row: int|
        compress_assigned(config, table, row) ==> #[trigger] after.gates@[n + 5].reads_assigned(
            table,
            row,
        )
}

/// By how much `sum` in row `i` of the final merge misses the three words
/// of its row added up.
spec fn sum_defect(config: RMD160Config, table: Table, row: int, i: int) -> int {
    config.adv(table, row, 3, i) - config.adv(table, row, 0, i) - config.adv(table, row, 1, i)
        - config.adv(table, row, 2, i)
}

/// By how much the merged word of row `i` and its carry miss `sum`.
spec fn word_defect(config: RMD160Config, table: Table, row: int, i: int) -> int {
    config.adv(table, row, 5, (i + 4) % 5) + config.adv(table, row, 4, i) * 0x1_0000_0000
        - config.adv(table, row, 3, i)
}

impl RMD160Chip {
    /// The weighted sum of the four limbs read at `l0` to `l3`.
    fn limbs_expr(config: &RMD160Config, l0: GateCell, l1: GateCell, l2: GateCell, l3: GateCell) -> (e:
        Expression)
        requires
            l0.kind() == ADVICE && l1.kind() == ADVICE && l2.kind() == ADVICE && l3.kind()
                == ADVICE,
            l0.col() < 7 && l1.col() == l0.col() && l2.col() == l0.col() && l3.col() == l0.col(),
            l0.row() == 1 && l1.row() == 2 && l2.row() == 3 && l3.row() == 4,
        ensures
            forall|table: Table, row: int| #[trigger]
                e.eval(table, row) == config.limbs(table, row, l0.col() as int),
            forall|table: Table, row: int| #[trigger]
                e.reads_assigned(table, row) == (config.has_adv(table, row, l0.col() as int, 1)
                    && config.has_adv(table, row, l0.col() as int, 2) && config.has_adv(
                    table,
                    row,
                    l0.col() as int,
                    3,
                ) && config.has_adv(table, row, l0.col() as int, 4)),
    {
        let e0 = config.get_expr(l0);
        let e1 = config.get_expr(l1).scaled(1u64 << 8);
        let e2 = config.get_expr(l2).scaled(1u64 << 16);
        let e3 = config.get_expr(l3).scaled(1u64 << 24);
        assert(1u64 << 8 == 0x100 && 1u64 << 16 == 0x1_0000 && 1u64 << 24 == 0x100_0000)
            by (bit_vector);
        e0.plus(e1).plus(e2).plus(e3)
    }

    /// The polynomials of the first bounded sum.
    fn sum_with_bound_polys(config: &RMD160Config) -> (polys: Vec<Expression>)
        ensures
            forall|table: Table, row: int| #[trigger]
                vanish(polys@, table, row) <==> (config.sel(table, row, 0) == 1 ==> sum_with_bound(
                    *config,
                    table,
                    row,
                )),
            forall|table: Table, row: int|
                round_assigned(*config, table, row) ==> #[trigger] all_assigned(polys@, table, row),
    {
        let sum_r = Self::limbs_expr(
            config,
            RoundGate::rlimb(0),
            RoundGate::rlimb(1),
            RoundGate::rlimb(2),
            RoundGate::rlimb(3),
        );
        let w0 = config.get_expr(RoundGate::w0());
        let wb = config.get_expr(RoundGate::wb());
        let wc = config.get_expr(RoundGate::wc());
        let a = config.get_expr(RoundGate::a());
        let x = config.get_expr(RoundGate::x());
        let offset = config.get_expr(RoundGate::offset());
        let hsel = config.get_expr(RoundGate::hsel(0));
        let first = wb.duplicate().minus(sum_r).minus(a).minus(x).minus(offset).times(
            hsel.duplicate(),
        );
        let second = w0.plus(wc.scaled(1u64 << 32)).minus(wb).times(hsel);
        assert(1u64 << 32 == 0x1_0000_0000) by (bit_vector);
        let polys = vec![first, second];
        assert forall|table: Table, row: int| #[trigger]
            vanish(polys@, table, row) <==> (config.sel(table, row, 0) == 1 ==> sum_with_bound(
                *config,
                table,
                row,
            )) by {
            let h = config.sel(table, row, 0);
            let wb_v = config.adv(table, row, 0, 2);
            let e0 = wb_v - config.limbs(table, row, 4) - config.adv(table, row, 0, 0)
                - config.adv(table, row, 4, 0) - config.fix(table, row, 0);
            let e1 = config.adv(table, row, 0, 1) + config.adv(table, row, 0, 3) * 0x1_0000_0000
                - wb_v;
            assert(polys@[0].eval(table, row) == e0 * h);
            assert(polys@[1].eval(table, row) == e1 * h);
            lemma_gated(e0, h);
            lemma_gated(e1, h);
        }
        assert forall|table: Table, row: int|
            round_assigned(*config, table, row) implies #[trigger] all_assigned(
            polys@,
            table,
            row,
        ) by {
            lemma_round_assigned(*config, table, row);
            assert(polys@[0].reads_assigned(table, row));
            assert(polys@[1].reads_assigned(table, row));
        }
        polys
    }

    /// The polynomials of the second bounded sum.
    fn sum_with_rotated_polys(config: &RMD160Config) -> (polys: Vec<Expression>)
        ensures
            forall|table: Table, row: int| #[trigger]
                vanish(polys@, table, row) <==> (config.sel(table, row, 0) == 1
                    ==> sum_with_rotated(*config, table, row)),
            forall|table: Table, row: int|
                round_assigned(*config, table, row) ==> #[trigger] all_assigned(polys@, table, row),
    {
        let a_next = config.get_expr(RoundGate::a_next());
        let hsel = config.get_expr(RoundGate::hsel(0));
        let w1 = config.get_expr(RoundGate::w1());
        let w2b = config.get_expr(RoundGate::w2b());
        let w2c = config.get_expr(RoundGate::w2c());
        let e = config.get_expr(RoundGate::e());
        let first = w2b.duplicate().minus(w1).minus(e).times(hsel.duplicate());
        let second = w2c.duplicate().times(w2c.duplicate().minus(Expression::Constant(1))).times(
            hsel.duplicate(),
        );
        let third = a_next.plus(w2c.scaled(1u64 << 32)).minus(w2b).times(hsel);
        assert(1u64 << 32 == 0x1_0000_0000) by (bit_vector);
        let polys = vec![first, second, third];
        assert forall|table: Table, row: int| #[trigger]
            vanish(polys@, table, row) <==> (config.sel(table, row, 0) == 1 ==> sum_with_rotated(
                *config,
                table,
                row,
            )) by {
            let h = config.sel(table, row, 0);
            let w2b_v = config.adv(table, row, 6, 3);
            let w2c_v = config.adv(table, row, 6, 4);
            let e0 = w2b_v - config.adv(table, row, 0, 4) - config.adv(table, row, 5, 0);
            let e1 = w2c_v * (w2c_v - 1);
            let e2 = config.adv(table, row, 5, 3) + w2c_v * 0x1_0000_0000 - w2b_v;
            assert(polys@[0].eval(table, row) == e0 * h);
            assert(polys@[1].eval(table, row) == e1 * h);
            assert(polys@[2].eval(table, row) == e2 * h);
            lemma_gated(e0, h);
            lemma_gated(e1, h);
            lemma_gated(e2, h);
            assert(e1 == 0 <==> (w2c_v == 0 || w2c_v == 1)) by (nonlinear_arith)
                requires
                    e1 == w2c_v * (w2c_v - 1),
            ;
        }
        assert forall|table: Table, row: int|
            round_assigned(*config, table, row) implies #[trigger] all_assigned(
            polys@,
            table,
            row,
        ) by {
            lemma_round_assigned(*config, table, row);
            assert(polys@[0].reads_assigned(table, row));
            assert(polys@[1].reads_assigned(table, row));
            assert(polys@[2].reads_assigned(table, row));
        }
        polys
    }

    /// The polynomials of the limb decomposition.
    fn limbs_sum_polys(config: &RMD160Config) -> (polys: Vec<Expression>)
        ensures
            forall|table: Table, row: int| #[trigger]
                vanish(polys@, table, row) <==> (config.sel(table, row, 0) == 1 ==> limbs_sum(
                    *config,
                    table,
                    row,
                )),
            forall|table: Table, row: int|
                round_assigned(*config, table, row) ==> #[trigger] all_assigned(polys@, table, row),
    {
        let hsel = config.get_expr(RoundGate::hsel(0));
        let b = config.get_expr(RoundGate::b());
        let sum_b = Self::limbs_expr(
            config,
            RoundGate::blimb(0),
            RoundGate::blimb(1),
            RoundGate::blimb(2),
            RoundGate::blimb(3),
        );
        let c = config.get_expr(RoundGate::c());
        let sum_c = Self::limbs_expr(
            config,
            RoundGate::climb(0),
            RoundGate::climb(1),
            RoundGate::climb(2),
            RoundGate::climb(3),
        );
        let d = config.get_expr(RoundGate::d());
        let sum_d = Self::limbs_expr(
            config,
            RoundGate::dlimb(0),
            RoundGate::dlimb(1),
            RoundGate::dlimb(2),
            RoundGate::dlimb(3),
        );
        let first = sum_b.minus(b).times(hsel.duplicate());
        let second = sum_c.minus(c).times(hsel.duplicate());
        let third = sum_d.minus(d).times(hsel);
        let polys = vec![first, second, third];
        assert forall|table: Table, row: int| #[trigger]
            vanish(polys@, table, row) <==> (config.sel(table, row, 0) == 1 ==> limbs_sum(
                *config,
                table,
                row,
            )) by {
            let h = config.sel(table, row, 0);
            let e0 = config.limbs(table, row, 1) - config.adv(table, row, 1, 0);
            let e1 = config.limbs(table, row, 2) - config.adv(table, row, 2, 0);
            let e2 = config.limbs(table, row, 3) - config.adv(table, row, 3, 0);
            assert(polys@[0].eval(table, row) == e0 * h);
            assert(polys@[1].eval(table, row) == e1 * h);
            assert(polys@[2].eval(table, row) == e2 * h);
            lemma_gated(e0, h);
            lemma_gated(e1, h);
            lemma_gated(e2, h);
        }
        assert forall|table: Table, row: int|
            round_assigned(*config, table, row) implies #[trigger] all_assigned(
            polys@,
            table,
            row,
        ) by {
            lemma_round_assigned(*config, table, row);
            assert(polys@[0].reads_assigned(table, row));
            assert(polys@[1].reads_assigned(table, row));
            assert(polys@[2].reads_assigned(table, row));
        }
        polys
    }

    /// The polynomials of the fixed rotation of `c`.
    fn c_rotate_polys(config: &RMD160Config) -> (polys: Vec<Expression>)
        ensures
            forall|table: Table, row: int| #[trigger]
                vanish(polys@, table, row) <==> (config.sel(table, row, 0) == 1 ==> c_rotate(
                    *config,
                    table,
                    row,
                )),
            forall|table: Table, row: int|
                round_assigned(*config, table, row) ==> #[trigger] all_assigned(polys@, table, row),
    {
        let hsel = config.get_expr(RoundGate::hsel(0));
        let c = config.get_expr(RoundGate::c());
        let c_next = config.get_expr(RoundGate::c_next());
        let w4l = config.get_expr(RoundGate::w4_l());
        let w4h = config.get_expr(RoundGate::w4_h());
        let first = w4h.duplicate().times(Expression::Constant(1u64 << 22)).plus(w4l.duplicate()).minus(
            c,
        ).times(hsel.duplicate());
        let second = w4l.times(Expression::Constant(1u64 << 10)).plus(w4h).minus(c_next).times(hsel);
        assert(1u64 << 22 == 0x40_0000 && 1u64 << 10 == 0x400) by (bit_vector);
        let polys = vec![first, second];
        assert forall|table: Table, row: int| #[trigger]
            vanish(polys@, table, row) <==> (config.sel(table, row, 0) == 1 ==> c_rotate(
                *config,
                table,
                row,
            )) by {
            let h = config.sel(table, row, 0);
            let w4h_v = config.adv(table, row, 6, 1);
            let w4l_v = config.adv(table, row, 6, 2);
            let e0 = w4h_v * 0x40_0000 + w4l_v - config.adv(table, row, 2, 0);
            let e1 = w4l_v * 0x400 + w4h_v - config.adv(table, row, 6, 0);
            assert(polys@[0].eval(table, row) == e0 * h);
            assert(polys@[1].eval(table, row) == e1 * h);
            lemma_gated(e0, h);
            lemma_gated(e1, h);
        }
        assert forall|table: Table, row: int|
            round_assigned(*config, table, row) implies #[trigger] all_assigned(
            polys@,
            table,
            row,
        ) by {
            lemma_round_assigned(*config, table, row);
            assert(polys@[0].reads_assigned(table, row));
            assert(polys@[1].reads_assigned(table, row));
        }
        polys
    }

    /// The polynomials of the variable rotation of `w0`.
    fn w0_rotate_polys(config: &RMD160Config) -> (polys: Vec<Expression>)
        ensures
            forall|table: Table, row: int| #[trigger]
                vanish(polys@, table, row) <==> (config.sel(table, row, 0) == 1 ==> w0_rotate(
                    *config,
                    table,
                    row,
                )),
            forall|table: Table, row: int|
                round_assigned(*config, table, row) ==> #[trigger] all_assigned(polys@, table, row),
    {
        let hsel = config.get_expr(RoundGate::hsel(0));
        let w0 = config.get_expr(RoundGate::w0());
        let w1 = config.get_expr(RoundGate::w1());
        let w1l = config.get_expr(RoundGate::w1_l());
        let w1h = config.get_expr(RoundGate::w1_h());
        let shift = config.get_expr(RoundGate::w1_r());
        let shift2 = config.get_expr(RoundGate::w1_rr());
        let first = w1h.duplicate().times(shift2).plus(w1l.duplicate()).minus(w0).times(
            hsel.duplicate(),
        );
        let second = w1l.times(shift).plus(w1h).minus(w1).times(hsel);
        let polys = vec![first, second];
        assert forall|table: Table, row: int| #[trigger]
            vanish(polys@, table, row) <==> (config.sel(table, row, 0) == 1 ==> w0_rotate(
                *config,
                table,
                row,
            )) by {
            let h = config.sel(table, row, 0);
            let w1h_v = config.adv(table, row, 5, 1);
            let w1l_v = config.adv(table, row, 5, 2);
            let e0 = w1h_v * config.fix(table, row, 2) + w1l_v - config.adv(table, row, 0, 1);
            let e1 = w1l_v * config.fix(table, row, 1) + w1h_v - config.adv(table, row, 0, 4);
            assert(polys@[0].eval(table, row) == e0 * h);
            assert(polys@[1].eval(table, row) == e1 * h);
            lemma_gated(e0, h);
            lemma_gated(e1, h);
        }
        assert forall|table: Table, row: int|
            round_assigned(*config, table, row) implies #[trigger] all_assigned(
            polys@,
            table,
            row,
        ) by {
            lemma_round_assigned(*config, table, row);
            assert(polys@[0].reads_assigned(table, row));
            assert(polys@[1].reads_assigned(table, row));
        }
        polys
    }

    /// The two polynomials of one row of the final merge.
    fn merge_row_polys(
        config: &RMD160Config,
        i: usize,
        initial: GateCell,
        left: GateCell,
        right: GateCell,
        sum: GateCell,
        carry: GateCell,
        merged: GateCell,
    ) -> (polys: (Expression, Expression))
        requires
            i < 5,
            initial.at(ADVICE, 0, i),
            left.at(ADVICE, 1, i),
            right.at(ADVICE, 2, i),
            sum.at(ADVICE, 3, i),
            carry.at(ADVICE, 4, i),
            merged.at(ADVICE, 5, ((i + 4) % 5) as usize),
        ensures
            forall|table: Table, row: int| #[trigger]
                polys.0.eval(table, row) == sum_defect(*config, table, row, i as int) * config.sel(
                    table,
                    row,
                    1,
                ),
            forall|table: Table, row: int| #[trigger]
                polys.1.eval(table, row) == word_defect(*config, table, row, i as int) * config.sel(
                    table,
                    row,
                    1,
                ),
            forall|table: Table, row: int|
                compress_assigned(*config, table, row) ==> #[trigger] polys.0.reads_assigned(
                    table,
                    row,
                ),
            forall|table: Table, row: int|
                compress_assigned(*config, table, row) ==> #[trigger] polys.1.reads_assigned(
                    table,
                    row,
                ),
    {
        let rsel = config.get_expr(CompressGate::rsel(0));
        let initial = config.get_expr(initial);
        let left = config.get_expr(left);
        let right = config.get_expr(right);
        let sum = config.get_expr(sum);
        let carry = config.get_expr(carry);
        let merged = config.get_expr(merged);
        let first = sum.duplicate().minus(initial).minus(left).minus(right).times(rsel.duplicate());
        let second = merged.plus(carry.scaled(1u64 << 32)).minus(sum).times(rsel);
        assert(1u64 << 32 == 0x1_0000_0000) by (bit_vector);
        assert forall|table: Table, row: int|
            compress_assigned(*config, table, row) implies #[trigger] first.reads_assigned(
            table,
            row,
        ) by {
            assert(config.has_adv(table, row, 0, i as int));
            assert(config.has_adv(table, row, 1, i as int));
            assert(config.has_adv(table, row, 2, i as int));
            assert(config.has_adv(table, row, 3, i as int));
        }
        assert forall|table: Table, row: int|
            compress_assigned(*config, table, row) implies #[trigger] second.reads_assigned(
            table,
            row,
        ) by {
            assert(config.has_adv(table, row, 3, i as int));
            assert(config.has_adv(table, row, 4, i as int));
            assert(config.has_adv(table, row, 5, (i + 4) % 5));
        }
        (first, second)
    }

    /// The polynomials of the final merge.
    fn compress_polys(config: &RMD160Config) -> (polys: Vec<Expression>)
        ensures
            forall|table: Table, row: int| #[trigger]
                vanish(polys@, table, row) <==> (config.sel(table, row, 1) == 1
                    ==> compress_equations(*config, table, row)),
            forall|table: Table, row: int|
                compress_assigned(*config, table, row) ==> #[trigger] all_assigned(
                    polys@,
                    table,
                    row,
                ),
    {
        let r0 = Self::merge_row_polys(
            config,
            0,
            CompressGate::a(),
            CompressGate::b1(),
            CompressGate::c2(),
            CompressGate::sum0(),
            CompressGate::ca0(),
            CompressGate::anew(),
        );
        let r1 = Self::merge_row_polys(
            config,
            1,
            CompressGate::b(),
            CompressGate::c1(),
            CompressGate::d2(),
            CompressGate::sum1(),
            CompressGate::ca1(),
            CompressGate::bnew(),
        );
        let r2 = Self::merge_row_polys(
            config,
            2,
            CompressGate::c(),
            CompressGate::d1(),
            CompressGate::e2(),
            CompressGate::sum2(),
            CompressGate::ca2(),
            CompressGate::cnew(),
        );
        let r3 = Self::merge_row_polys(
            config,
            3,
            CompressGate::d(),
            CompressGate::e1(),
            CompressGate::a2(),
            CompressGate::sum3(),
            CompressGate::ca3(),
            CompressGate::dnew(),
        );
        let r4 = Self::merge_row_polys(
            config,
            4,
            CompressGate::e(),
            CompressGate::a1(),
            CompressGate::b2(),
            CompressGate::sum4(),
            CompressGate::ca4(),
            CompressGate::enew(),
        );
        let polys = vec![r0.0, r0.1, r1.0, r1.1, r2.0, r2.1, r3.0, r3.1, r4.0, r4.1];
        assert forall|table: Table, row: int| #[trigger]
            vanish(polys@, table, row) <==> (config.sel(table, row, 1) == 1 ==> compress_equations(
                *config,
                table,
                row,
            )) by {
            let h = config.sel(table, row, 1);
            assert forall|i: int| 0 <= i < 5 implies ((polys@[2 * i].eval(table, row) == 0
                && polys@[2 * i + 1].eval(table, row) == 0) <==> (h == 1 ==> #[trigger] merge_row(
                *config,
                table,
                row,
                i,
            ))) by {
                lemma_gated(sum_defect(*config, table, row, i), h);
                lemma_gated(word_defect(*config, table, row, i), h);
            }
        }
        assert forall|table: Table, row: int|
            compress_assigned(*config, table, row) implies #[trigger] all_assigned(
            polys@,
            table,
            row,
        ) by {
            assert(polys@[0] == r0.0 && polys@[1] == r0.1 && polys@[2] == r1.0 && polys@[3] == r1.1
                && polys@[4] == r2.0);
            assert(polys@[5] == r2.1 && polys@[6] == r3.0 && polys@[7] == r3.1 && polys@[8] == r4.0
                && polys@[9] == r4.1);
        }
        polys
    }

    /// Adds the columns and gates of the chip to `cs`.
    pub fn configure(cs: &mut ConstraintSystem) -> (config: RMD160Config)
        requires
            old(cs).num_advice_columns <= usize::MAX - 7,
            old(cs).num_fixed_columns <= usize::MAX - 1,
            old(cs).num_selectors <= usize::MAX - 2,
        ensures
            configured(*old(cs), *final(cs), config),
    {
        let w0 = cs.advice_column();
        let w1 = cs.advice_column();
        let w2 = cs.advice_column();
        let w3 = cs.advice_column();
        let w4 = cs.advice_column();
        let w5 = cs.advice_column();
        let w6 = cs.advice_column();
        let witness: [usize; 7] = [w0, w1, w2, w3, w4, w5, w6];
        let fixed: [usize; 1] = [cs.fixed_column()];
        let s0 = cs.selector();
        let s1 = cs.selector();
        let selector: [usize; 2] = [s0, s1];
        let mut i: usize = 0;
        while i < 7
            invariant
                i <= 7,
                cs.equality@ == old(cs).equality@ + witness@.subrange(0, i as int),
                cs.num_advice_columns == old(cs).num_advice_columns + 7,
                cs.num_fixed_columns == old(cs).num_fixed_columns + 1,
                cs.num_selectors == old(cs).num_selectors + 2,
                cs.gates@ == old(cs).gates@,
            decreases 7 - i,
        {
            cs.enable_equality(witness[i]);
            assert(witness@.subrange(0, i + 1) == witness@.subrange(0, i as int).push(
                witness@[i as int],
            ));
            i += 1;
        }
        assert(witness@.subrange(0, 7) == witness@);

        let config = RMD160Config { fixed, selector, witness };
        cs.create_gate("sum with bound", Self::sum_with_bound_polys(&config));
        cs.create_gate("sum with w1 rol4", Self::sum_with_rotated_polys(&config));
        cs.create_gate("limbs sum", Self::limbs_sum_polys(&config));
        cs.create_gate("c rotate", Self::c_rotate_polys(&config));
        cs.create_gate("w0 rotate", Self::w0_rotate_polys(&config));
        cs.create_gate("compress sum", Self::compress_polys(&config));
        proof {
            let n = old(cs).gates@.len() as int;
            assert(cs.gates@.subrange(0, n) == old(cs).gates@);
        }
        config
    }
}

} // verus!
