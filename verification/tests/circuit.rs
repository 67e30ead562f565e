use std::collections::HashMap;

use halo2_proofs::circuit::{AssignedCell as ProverCell, Cell as ProverPlace, Layouter};
use halo2_proofs::circuit::{Region as ProverRegion, SimpleFloorPlanner, Value};
use halo2_proofs::dev::MockProver;
use halo2_proofs::pasta::Fp;
use halo2_proofs::plonk::{Advice, Circuit, Column, ConstraintSystem as ProverSystem, Error};
use halo2_proofs::plonk::{Expression as ProverExpression, Fixed, Selector, VirtualCells};
use halo2_proofs::poly::Rotation;

use rmd160_circuit::chip::RMD160Chip;
use rmd160_circuit::config::RMD160Config;
use rmd160_circuit::plonk::{ConstraintSystem, Expression};
use rmd160_circuit::schedule::H0;
use rmd160_circuit::table::{AssignedCell, Assignment, Cell};

#[derive(Clone, Debug)]
struct Columns {
    advice: Vec<Column<Advice>>,
    fixed: Vec<Column<Fixed>>,
    selectors: Vec<Selector>,
}

#[derive(Clone, Debug)]
struct TestConfig {
    rmd160config: RMD160Config,
    columns: Columns,
    limb: Column<Advice>,
}

fn lower(meta: &mut VirtualCells<'_, Fp>, columns: &Columns, e: &Expression) -> ProverExpression<Fp> {
    match e {
        Expression::Constant(c) => ProverExpression::Constant(Fp::from(*c)),
        Expression::Selector(s) => meta.query_selector(columns.selectors[*s]),
        Expression::Fixed { column, rotation } => {
            meta.query_fixed(columns.fixed[*column], Rotation(*rotation as i32))
        }
        Expression::Advice { column, rotation } => {
            meta.query_advice(columns.advice[*column], Rotation(*rotation as i32))
        }
        Expression::Negated(inner) => -lower(meta, columns, inner),
        Expression::Sum(l, r) => lower(meta, columns, l) + lower(meta, columns, r),
        Expression::Product(l, r) => lower(meta, columns, l) * lower(meta, columns, r),
        Expression::Scaled(inner, c) => lower(meta, columns, inner) * Fp::from(*c),
    }
}

fn gate_name(name: &str) -> &'static str {
    match name {
        "sum with bound" => "sum with bound",
        "sum with w1 rol4" => "sum with w1 rol4",
        "limbs sum" => "limbs sum",
        "c rotate" => "c rotate",
        "w0 rotate" => "w0 rotate",
        "compress sum" => "compress sum",
        _ => panic!("unknown gate {}", name),
    }
}

fn configure_columns(meta: &mut ProverSystem<Fp>) -> (RMD160Config, Columns) {
    let mut cs = ConstraintSystem::new();
    let config = RMD160Chip::configure(&mut cs);
    let columns = Columns {
        advice: (0..cs.num_advice_columns).map(|_| meta.advice_column()).collect(),
        fixed: (0..cs.num_fixed_columns).map(|_| meta.fixed_column()).collect(),
        selectors: (0..cs.num_selectors).map(|_| meta.selector()).collect(),
    };
    for column in cs.equality.iter() {
        meta.enable_equality(columns.advice[*column]);
    }
    for gate in cs.gates.iter() {
        meta.create_gate(gate_name(gate.name.as_str()), |meta| {
            gate.polys.iter().map(|p| lower(meta, &columns, p)).collect::<Vec<_>>()
        });
    }
    (config, columns)
}

fn replay(
    region: &mut ProverRegion<'_, Fp>,
    columns: &Columns,
    index: usize,
    record: &[Assignment],
    places: &mut HashMap<Cell, ProverPlace>,
) -> Result<(), Error> {
    for entry in record {
        match *entry {
            Assignment::Advice { column, row, value } => {
                let cell = region.assign_advice(
                    || "assign cell",
                    columns.advice[column],
                    row,
                    || Value::known(Fp::from(value)),
                )?;
                places.insert(Cell { region: index, kind: 0, column, row }, cell.cell());
            }
            Assignment::Fixed { column, row, value } => {
                let cell = region.assign_fixed(
                    || "assign cell",
                    columns.fixed[column],
                    row,
                    || Value::known(Fp::from(value)),
                )?;
                places.insert(Cell { region: index, kind: 1, column, row }, cell.cell());
            }
            Assignment::Enable { selector, row } => {
                columns.selectors[selector].enable(region, row)?;
            }
            Assignment::Equal { left, right } => {
                region.constrain_equal(places[&left], places[&right])?;
            }
        }
    }
    Ok(())
}

fn assign_words(
    layouter: &mut impl Layouter<Fp>,
    limb: Column<Advice>,
    words: &[u64],
) -> Result<Vec<ProverCell<Fp, Fp>>, Error> {
    layouter.assign_region(
        || "leaf layer",
        |mut region| {
            let mut r = vec![];
            for (i, word) in words.iter().enumerate() {
                r.push(region.assign_advice(
                    || "assign w",
                    limb,
                    i,
                    || Value::known(Fp::from(*word)),
                )?);
            }
            Ok(r)
        },
    )
}

#[derive(Clone, Debug, Default)]
struct RMD160Circuit {
    inputs: [u64; 16],
    tamper: Option<usize>,
}

impl Circuit<Fp> for RMD160Circuit {
    type Config = TestConfig;
    type FloorPlanner = SimpleFloorPlanner;

    fn without_witnesses(&self) -> Self {
        Self::default()
    }

    fn configure(meta: &mut ProverSystem<Fp>) -> Self::Config {
        let (rmd160config, columns) = configure_columns(meta);
        let limb = meta.advice_column();
        meta.enable_equality(limb);
        TestConfig { rmd160config, columns, limb }
    }

    fn synthesize(&self, config: Self::Config, mut layouter: impl Layouter<Fp>) -> Result<(), Error> {
        let chip = RMD160Chip::new(config.rmd160config);
        let start_words: Vec<u64> = H0.iter().map(|w| *w as u64).collect();
        let w = assign_words(&mut layouter, config.limb, &start_words)?;
        let input = assign_words(&mut layouter, config.limb, &self.inputs)?;

        let mut places = HashMap::new();
        let mut start_buf = [AssignedCell { cell: Cell { region: 1, kind: 0, column: 0, row: 0 }, value: 0 }; 5];
        for i in 0..5 {
            start_buf[i].cell.row = i;
            start_buf[i].value = start_words[i];
            places.insert(start_buf[i].cell, w[i].cell());
        }
        let mut inputs = [AssignedCell { cell: Cell { region: 2, kind: 0, column: 0, row: 0 }, value: 0 }; 16];
        for i in 0..16 {
            inputs[i].cell.row = i;
            inputs[i].value = self.inputs[i];
            places.insert(inputs[i].cell, input[i].cell());
        }
        let (rows, _digest) = chip.assign_content(0, &start_buf, &inputs);
        let mut record = rows.record.clone();
        if let Some(at) = self.tamper {
            record[at] = match record[at] {
                Assignment::Advice { column, row, value } => {
                    Assignment::Advice { column, row, value: value + 1 }
                }
                other => other,
            };
        }
        layouter.assign_region(
            || "leaf layer",
            |mut region| {
                let mut places = places.clone();
                replay(&mut region, &config.columns, 0, &record, &mut places)
            },
        )
    }
}

#[test]
fn test_rmd160_circuit() {
    let test_circuit = RMD160Circuit {
        inputs: [1, 2, 3, 4, 5, 6, 7, 8, 9, 10, 11, 12, 13, 14, 15, 16],
        tamper: None,
    };
    let prover = MockProver::run(16, &test_circuit, vec![]).unwrap();
    assert_eq!(prover.verify(), Ok(()));
}

#[test]
fn a_changed_witness_fails_the_prover() {
    let first_witness = 20;
    let test_circuit = RMD160Circuit {
        inputs: [1, 2, 3, 4, 5, 6, 7, 8, 9, 10, 11, 12, 13, 14, 15, 16],
        tamper: Some(first_witness),
    };
    let prover = MockProver::run(16, &test_circuit, vec![]).unwrap();
    assert!(prover.verify().is_err());
}
