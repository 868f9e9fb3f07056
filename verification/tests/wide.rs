use fibonacci_circuit::field::FieldElement;
use fibonacci_circuit::layouter::{AssignedCell, Layouter};
use fibonacci_circuit::plonk::{AdviceColumn, Column, ConstraintSystem, Error, InstanceColumn, Selector};
use fibonacci_circuit::table::Cell;
use fibonacci_circuit::value::Value;
use fibonacci_circuit::wide::{FiboChip, FiboConfig, MyCircuit};

fn fe(v: u64) -> FieldElement {
    FieldElement::from_u64(v)
}

fn publics(values: &[u64]) -> Vec<Vec<FieldElement>> {
    vec![values.iter().map(|v| fe(*v)).collect()]
}

fn circuit(a: u64, b: u64, terms: usize) -> MyCircuit {
    MyCircuit { a: Value::known(fe(a)), b: Value::known(fe(b)), terms }
}

fn advice_cell(column: usize, row: usize) -> Cell {
    Cell { column: Column::Advice(AdviceColumn(column)), row }
}

fn instance_cell(row: usize) -> Cell {
    Cell { column: Column::Instance(InstanceColumn(0)), row }
}

fn value_of(layouter: &Layouter, column: usize, row: usize) -> Option<u64> {
    match layouter.advice(AdviceColumn(column), row) {
        Some(Value::Known(v)) => {
            let bytes = v.to_bytes();
            assert!(bytes[8..].iter().all(|b| *b == 0));
            let mut low = [0u8; 8];
            low.copy_from_slice(&bytes[..8]);
            Some(u64::from_le_bytes(low))
        }
        _ => None,
    }
}

fn fresh(rows: usize, values: &[u64]) -> (Layouter, FiboConfig) {
    let mut cs = ConstraintSystem::new();
    let config = MyCircuit::configure(&mut cs);
    (Layouter::new(cs, rows, publics(values)), config)
}

#[test]
fn wide_ten_terms_pass_with_55() {
    assert_eq!(circuit(1, 1, 10).check(10, publics(&[1, 1, 55])), Ok(true));
}

#[test]
fn wide_ten_terms_fail_with_65() {
    assert_eq!(circuit(1, 1, 10).check(10, publics(&[1, 1, 65])), Ok(false));
}

#[test]
fn wide_ten_terms_lay_out_the_sequence() {
    let layouter = circuit(1, 1, 10).run(10, publics(&[1, 1, 55])).unwrap();
    let expected = [1u64, 1, 2, 3, 5, 8, 13, 21, 34, 55];
    for row in 0..8 {
        for column in 0..3 {
            assert_eq!(value_of(&layouter, column, row), Some(expected[row + column]));
        }
        assert!(layouter.selector_enabled(Selector(0), row));
    }
    for row in 8..10 {
        for column in 0..3 {
            assert!(layouter.advice(AdviceColumn(column), row).is_none());
        }
        assert!(!layouter.selector_enabled(Selector(0), row));
    }
    assert_eq!(layouter.next_row(), 8);
    assert!(layouter.is_satisfied());
}

#[test]
fn wide_regions_are_one_row_each() {
    let layouter = circuit(1, 1, 10).run(10, publics(&[1, 1, 55])).unwrap();
    let regions = layouter.regions();
    assert_eq!(regions.len(), 8);
    assert_eq!(regions[0].name, "first row");
    for (i, region) in regions.iter().enumerate() {
        assert_eq!(region.start, i);
        if i > 0 {
            assert_eq!(region.name, "next row");
        }
    }
}

#[test]
fn wide_copies_chain_the_rows() {
    let layouter = circuit(1, 1, 10).run(10, publics(&[1, 1, 55])).unwrap();
    let copies = layouter.copies();
    assert_eq!(copies.len(), 15);
    // Row 1 takes its a from the first row's b, and its b from the first row's c.
    assert_eq!(copies[0].left, advice_cell(0, 1));
    assert_eq!(copies[0].right, advice_cell(1, 0));
    assert_eq!(copies[1].left, advice_cell(1, 1));
    assert_eq!(copies[1].right, advice_cell(2, 0));
    // From row 2 on the window holds two c cells.
    for row in 2..8 {
        assert_eq!(copies[2 * (row - 1)].left, advice_cell(0, row));
        assert_eq!(copies[2 * (row - 1)].right, advice_cell(2, row - 2));
        assert_eq!(copies[2 * (row - 1) + 1].left, advice_cell(1, row));
        assert_eq!(copies[2 * (row - 1) + 1].right, advice_cell(2, row - 1));
    }
    assert_eq!(copies[14].left, advice_cell(2, 7));
    assert_eq!(copies[14].right, instance_cell(2));
}

#[test]
fn wide_other_seeds_and_lengths() {
    // 2, 3, 5, 8, 13
    assert_eq!(circuit(2, 3, 5).check(10, publics(&[0, 0, 13])), Ok(true));
    assert_eq!(circuit(2, 3, 5).check(10, publics(&[0, 0, 8])), Ok(false));
    // 0, 0, 0, ...
    assert_eq!(circuit(0, 0, 7).check(10, publics(&[9, 9, 0])), Ok(true));
    // 5, 0, 5, 5, 10, 15
    assert_eq!(circuit(5, 0, 6).check(4, publics(&[5, 0, 15])), Ok(true));
    // Rows 0 and 1 of the public inputs are not read by this layout.
    assert_eq!(circuit(1, 1, 10).check(10, publics(&[7, 7, 55])), Ok(true));
}

#[test]
fn wide_every_wrong_output_fails() {
    for out in 0..100u64 {
        assert_eq!(circuit(1, 1, 10).check(10, publics(&[1, 1, out])), Ok(out == 55));
    }
}

#[test]
fn wide_output_missing_reads_as_zero() {
    assert_eq!(circuit(1, 1, 10).check(10, publics(&[1, 1])), Ok(false));
    assert_eq!(circuit(1, 1, 10).check(10, vec![]), Ok(false));
    assert_eq!(circuit(0, 0, 10).check(10, vec![]), Ok(true));
}

#[test]
fn wide_sequence_wraps_in_the_field() {
    // p - 1, 1, 0, 1, 1
    let minus_one = FieldElement::one().neg();
    let wrapping = MyCircuit { a: Value::known(minus_one), b: Value::known(fe(1)), terms: 5 };
    assert_eq!(wrapping.check(3, publics(&[0, 0, 1])), Ok(true));
    let layouter = wrapping.run(3, publics(&[0, 0, 1])).unwrap();
    assert_eq!(value_of(&layouter, 2, 0), Some(0));
    assert_eq!(value_of(&layouter, 2, 1), Some(1));
    assert_eq!(value_of(&layouter, 2, 2), Some(1));
}

#[test]
fn wide_short_chains_take_one_row() {
    for terms in 0..=3 {
        let layouter = circuit(4, 6, terms).run(3, publics(&[0, 0, 10])).unwrap();
        assert_eq!(layouter.next_row(), 1);
        assert_eq!(value_of(&layouter, 2, 0), Some(10));
        assert_eq!(layouter.copies().len(), 1);
        assert!(layouter.is_satisfied());
    }
}

#[test]
fn wide_needs_its_rows() {
    assert_eq!(circuit(1, 1, 10).check(7, publics(&[1, 1, 55])), Err(Error::NotEnoughRowsAvailable));
    assert_eq!(circuit(1, 1, 10).check(8, publics(&[1, 1, 55])), Ok(true));
    // The output is bound to row 2 of the public inputs, so three rows are the least.
    assert_eq!(circuit(1, 1, 3).check(2, publics(&[1, 1, 2])), Err(Error::NotEnoughRowsAvailable));
    assert_eq!(circuit(1, 1, 3).check(3, publics(&[1, 1, 2])), Ok(true));
    assert_eq!(circuit(1, 1, 3).check(0, publics(&[1, 1, 2])), Err(Error::NotEnoughRowsAvailable));
    assert!(circuit(1, 1, 10).run(7, publics(&[1, 1, 55])).is_err());
}

#[test]
fn wide_unknown_witnesses_lay_out_but_do_not_pass() {
    let blank = circuit(1, 1, 10).without_witnesses();
    assert!(!blank.a.is_known());
    assert!(!blank.b.is_known());
    assert_eq!(blank, MyCircuit { a: Value::Unknown, b: Value::Unknown, terms: 10 });
    let layouter = blank.run(10, publics(&[1, 1, 55])).unwrap();
    assert_eq!(layouter.next_row(), 8);
    assert!(matches!(layouter.advice(AdviceColumn(2), 7), Some(Value::Unknown)));
    assert_eq!(blank.check(10, publics(&[1, 1, 55])), Ok(false));
    let half = MyCircuit { a: Value::known(fe(1)), b: Value::unknown(), terms: 10 };
    assert_eq!(half.check(10, publics(&[1, 1, 55])), Ok(false));
}

#[test]
fn wide_first_row_sums_the_seeds() {
    let (mut layouter, config) = fresh(4, &[]);
    let chip = FiboChip::construct(config);
    let (a, b, c) = chip.assign_first_row(&mut layouter, Value::known(fe(3)), Value::known(fe(4))).unwrap();
    assert_eq!(a.cell(), advice_cell(0, 0));
    assert_eq!(b.cell(), advice_cell(1, 0));
    assert_eq!(c.cell(), advice_cell(2, 0));
    assert_eq!(value_of(&layouter, 2, 0), Some(7));
    assert_eq!(c.value(), Value::Known(fe(7)));
    assert!(layouter.selector_enabled(Selector(0), 0));
    assert!(layouter.copies().is_empty());
}

#[test]
fn wide_next_row_copies_and_sums() {
    let (mut layouter, config) = fresh(4, &[]);
    let chip = FiboChip::construct(config);
    let (_, b, c) = chip.assign_first_row(&mut layouter, Value::known(fe(3)), Value::known(fe(4))).unwrap();
    let next = chip.assign_row(&mut layouter, &b, &c).unwrap();
    assert_eq!(next.cell(), advice_cell(2, 1));
    assert_eq!(value_of(&layouter, 0, 1), Some(4));
    assert_eq!(value_of(&layouter, 1, 1), Some(7));
    assert_eq!(value_of(&layouter, 2, 1), Some(11));
    assert_eq!(layouter.copies().len(), 2);
    assert!(layouter.is_satisfied());
}

#[test]
fn wide_expose_public_binds_the_cell() {
    let (mut layouter, config) = fresh(4, &[0, 7]);
    let chip = FiboChip::construct(config);
    let (_, _, c) = chip.assign_first_row(&mut layouter, Value::known(fe(3)), Value::known(fe(4))).unwrap();
    chip.expose_public(&mut layouter, &c, 1).unwrap();
    assert_eq!(layouter.copies().len(), 1);
    assert_eq!(layouter.copies()[0].left, advice_cell(2, 0));
    assert_eq!(layouter.copies()[0].right, instance_cell(1));
    assert!(layouter.is_satisfied());
    assert_eq!(chip.expose_public(&mut layouter, &c, 4), Err(Error::NotEnoughRowsAvailable));
}

#[test]
fn wide_redirected_copy_fails_the_check() {
    // The chain 1, 1, 2, 3, 5 with the second row's a copied from a cell that holds 2, not 1.
    let (mut layouter, config) = fresh(4, &[0, 0, 5]);
    let chip = FiboChip::construct(config);
    let (_, b, c) = chip.assign_first_row(&mut layouter, Value::known(fe(1)), Value::known(fe(1))).unwrap();
    let redirected = AssignedCell { cell: c.cell(), value: b.value() };
    let c1 = chip.assign_row(&mut layouter, &redirected, &c).unwrap();
    let c2 = chip.assign_row(&mut layouter, &c, &c1).unwrap();
    chip.expose_public(&mut layouter, &c2, 2).unwrap();
    // Every row adds up and the output is right; only the copy is broken.
    assert_eq!(value_of(&layouter, 2, 2), Some(5));
    assert!(!layouter.is_satisfied());

    // The same chain with the copy where it belongs passes.
    let (mut layouter, config) = fresh(4, &[0, 0, 5]);
    let chip = FiboChip::construct(config);
    let (_, b, c) = chip.assign_first_row(&mut layouter, Value::known(fe(1)), Value::known(fe(1))).unwrap();
    let c1 = chip.assign_row(&mut layouter, &b, &c).unwrap();
    let c2 = chip.assign_row(&mut layouter, &c, &c1).unwrap();
    chip.expose_public(&mut layouter, &c2, 2).unwrap();
    assert!(layouter.is_satisfied());
}

#[test]
fn wide_chip_errors_come_from_the_first_failing_step() {
    // No selector and no columns: enabling the selector fails first.
    let bare = Layouter::new(ConstraintSystem::new(), 4, vec![]);
    let config = FiboConfig {
        advice: [AdviceColumn(0), AdviceColumn(1), AdviceColumn(2)],
        selector: Selector(0),
        instance: InstanceColumn(0),
    };
    let chip = FiboChip::construct(config);
    let mut layouter = bare;
    assert_eq!(
        chip.assign_first_row(&mut layouter, Value::known(fe(1)), Value::known(fe(1))).unwrap_err(),
        Error::BoundsFailure
    );
    // One column used for both a and b: the second assignment hits a filled cell.
    let (mut layouter, config) = fresh(4, &[]);
    let doubled = FiboChip::construct(FiboConfig { advice: [config.advice[0], config.advice[0], config.advice[2]], ..config });
    assert_eq!(
        doubled.assign_first_row(&mut layouter, Value::known(fe(1)), Value::known(fe(1))).unwrap_err(),
        Error::AlreadyAssigned
    );
    // Columns without equality cannot take a copy.
    let mut cs = ConstraintSystem::new();
    let columns = [cs.advice_column(), cs.advice_column(), cs.advice_column()];
    let selector = cs.selector();
    let loose = FiboChip::construct(FiboConfig { advice: columns, selector, instance: InstanceColumn(0) });
    let mut layouter = Layouter::new(cs, 4, vec![]);
    let (_, b, c) = loose.assign_first_row(&mut layouter, Value::known(fe(1)), Value::known(fe(1))).unwrap();
    assert_eq!(loose.assign_row(&mut layouter, &b, &c).unwrap_err(), Error::ColumnNotInPermutation);
    // A full table.
    let (mut layouter, config) = fresh(1, &[]);
    let chip = FiboChip::construct(config);
    let (_, b, c) = chip.assign_first_row(&mut layouter, Value::known(fe(1)), Value::known(fe(1))).unwrap();
    assert_eq!(chip.assign_row(&mut layouter, &b, &c).unwrap_err(), Error::NotEnoughRowsAvailable);
}
