use fibonacci_circuit::field::FieldElement;
use fibonacci_circuit::layouter::Layouter;
use fibonacci_circuit::narrow::{FiboChip, FiboConfig, MyCircuit};
use fibonacci_circuit::plonk::{AdviceColumn, Column, ConstraintSystem, Error, InstanceColumn, Selector};
use fibonacci_circuit::table::Cell;
use fibonacci_circuit::value::Value;

fn fe(v: u64) -> FieldElement {
    FieldElement::from_u64(v)
}

fn publics(values: &[u64]) -> Vec<Vec<FieldElement>> {
    vec![values.iter().map(|v| fe(*v)).collect()]
}

fn advice_cell(row: usize) -> Cell {
    Cell { column: Column::Advice(AdviceColumn(0)), row }
}

fn instance_cell(row: usize) -> Cell {
    Cell { column: Column::Instance(InstanceColumn(0)), row }
}

fn value_of(layouter: &Layouter, row: usize) -> Option<u64> {
    match layouter.advice(AdviceColumn(0), row) {
        Some(Value::Known(v)) => {
            let bytes = v.to_bytes();
            assert!(bytes[8..].iter().all(|b| *b == 0));
            let mut low = [0u8; 8];
            low.copy_from_slice(&bytes[..8]);
            Some(u64::from_le_bytes(low))
        }
        _ => None,
    }
}

fn fresh(rows: usize, values: &[u64]) -> (Layouter, FiboConfig) {
    let mut cs = ConstraintSystem::new();
    let config = MyCircuit::configure(&mut cs);
    (Layouter::new(cs, rows, publics(values)), config)
}

#[test]
fn narrow_ten_terms_pass_with_55() {
    assert_eq!(MyCircuit { terms: 10 }.check(10, publics(&[1, 1, 55])), Ok(true));
}

#[test]
fn narrow_ten_terms_fail_with_65() {
    assert_eq!(MyCircuit { terms: 10 }.check(10, publics(&[1, 1, 65])), Ok(false));
}

#[test]
fn narrow_ten_terms_lay_out_the_sequence() {
    let layouter = MyCircuit { terms: 10 }.run(10, publics(&[1, 1, 55])).unwrap();
    let expected = [1u64, 1, 2, 3, 5, 8, 13, 21, 34, 55];
    for row in 0..10 {
        assert_eq!(value_of(&layouter, row), Some(expected[row]));
        assert_eq!(layouter.selector_enabled(Selector(0), row), row < 8);
    }
    assert_eq!(layouter.next_row(), 10);
    assert_eq!(layouter.regions().len(), 1);
    assert_eq!(layouter.regions()[0].name, "entire fibonacci table");
    assert_eq!(layouter.regions()[0].start, 0);
    let copies = layouter.copies();
    assert_eq!(copies.len(), 3);
    assert_eq!((copies[0].left, copies[0].right), (advice_cell(0), instance_cell(0)));
    assert_eq!((copies[1].left, copies[1].right), (advice_cell(1), instance_cell(1)));
    assert_eq!((copies[2].left, copies[2].right), (advice_cell(9), instance_cell(2)));
    assert!(layouter.is_satisfied());
}

#[test]
fn narrow_seeds_come_from_the_public_inputs() {
    // 2, 3, 5, 8, 13, 21, 34, 55, 89, 144
    let layouter = MyCircuit { terms: 10 }.run(10, publics(&[2, 3, 144])).unwrap();
    let expected = [2u64, 3, 5, 8, 13, 21, 34, 55, 89, 144];
    for row in 0..10 {
        assert_eq!(value_of(&layouter, row), Some(expected[row]));
    }
    assert_eq!(MyCircuit { terms: 10 }.check(10, publics(&[2, 3, 144])), Ok(true));
    // The output that was right for the seeds (1, 1) is wrong for these.
    assert_eq!(MyCircuit { terms: 10 }.check(10, publics(&[2, 3, 55])), Ok(false));
    // Changing one seed alone changes the output that passes.
    assert_eq!(MyCircuit { terms: 10 }.check(10, publics(&[2, 1, 55])), Ok(false));
    assert_eq!(MyCircuit { terms: 10 }.check(10, publics(&[2, 1, 76])), Ok(true));
    assert_eq!(MyCircuit { terms: 10 }.check(10, publics(&[1, 2, 89])), Ok(true));
}

#[test]
fn narrow_every_wrong_output_fails() {
    for out in 0..100u64 {
        assert_eq!(MyCircuit { terms: 10 }.check(10, publics(&[1, 1, out])), Ok(out == 55));
    }
}

#[test]
fn narrow_missing_public_inputs_read_as_zero() {
    // Seeds 0 and 0 give a sequence of zeros.
    assert_eq!(MyCircuit { terms: 10 }.check(10, vec![]), Ok(true));
    assert_eq!(MyCircuit { terms: 10 }.check(10, publics(&[])), Ok(true));
    // 1, 0, 1, 1, 2 with the output missing
    assert_eq!(MyCircuit { terms: 5 }.check(10, publics(&[1])), Ok(false));
}

#[test]
fn narrow_three_terms_enable_one_row() {
    let layouter = MyCircuit { terms: 3 }.run(3, publics(&[4, 6, 10])).unwrap();
    assert!(layouter.selector_enabled(Selector(0), 0));
    assert!(!layouter.selector_enabled(Selector(0), 1));
    assert!(!layouter.selector_enabled(Selector(0), 2));
    assert_eq!(value_of(&layouter, 2), Some(10));
    assert!(layouter.is_satisfied());
    assert_eq!(MyCircuit { terms: 3 }.check(3, publics(&[4, 6, 11])), Ok(false));
}

#[test]
fn narrow_four_terms_enable_two_rows() {
    let layouter = MyCircuit { terms: 4 }.run(4, publics(&[4, 6, 16])).unwrap();
    assert!(layouter.selector_enabled(Selector(0), 0));
    assert!(layouter.selector_enabled(Selector(0), 1));
    assert!(!layouter.selector_enabled(Selector(0), 2));
    assert!(!layouter.selector_enabled(Selector(0), 3));
    assert_eq!(value_of(&layouter, 3), Some(16));
    assert!(layouter.is_satisfied());
}

#[test]
fn narrow_short_chains_lay_out_both_seeds() {
    for terms in 0..=2 {
        let layouter = MyCircuit { terms }.run(3, publics(&[4, 6, 6])).unwrap();
        assert_eq!(layouter.next_row(), 2);
        assert_eq!(value_of(&layouter, 0), Some(4));
        assert_eq!(value_of(&layouter, 1), Some(6));
        assert!(layouter.advice(AdviceColumn(0), 2).is_none());
        assert!(!layouter.selector_enabled(Selector(0), 0));
        assert_eq!(layouter.copies()[2].left, advice_cell(1));
        assert!(layouter.is_satisfied());
    }
}

#[test]
fn narrow_needs_its_rows() {
    assert_eq!(MyCircuit { terms: 10 }.check(9, publics(&[1, 1, 55])), Err(Error::NotEnoughRowsAvailable));
    assert_eq!(MyCircuit { terms: 10 }.check(10, publics(&[1, 1, 55])), Ok(true));
    assert_eq!(MyCircuit { terms: 2 }.check(2, publics(&[1, 1, 1])), Err(Error::NotEnoughRowsAvailable));
    assert_eq!(MyCircuit { terms: 2 }.check(3, publics(&[1, 1, 1])), Ok(true));
    assert_eq!(MyCircuit { terms: 0 }.check(0, publics(&[1, 1, 1])), Err(Error::NotEnoughRowsAvailable));
    assert!(MyCircuit { terms: 10 }.run(9, publics(&[1, 1, 55])).is_err());
}

#[test]
fn narrow_sequence_wraps_in_the_field() {
    // p - 1, 1, 0, 1, 1
    let minus_one = FieldElement::one().neg();
    let instance = vec![vec![minus_one, fe(1), fe(1)]];
    assert_eq!(MyCircuit { terms: 5 }.check(5, instance.clone()), Ok(true));
    let layouter = MyCircuit { terms: 5 }.run(5, instance).unwrap();
    assert_eq!(value_of(&layouter, 2), Some(0));
    assert_eq!(value_of(&layouter, 4), Some(1));
}

#[test]
fn narrow_assign_hands_back_the_last_cell() {
    let (mut layouter, config) = fresh(10, &[1, 1, 55]);
    let chip = FiboChip::construct(config);
    let last = chip.assign(&mut layouter, 10).unwrap();
    assert_eq!(last.cell(), advice_cell(9));
    match last.value() {
        Value::Known(v) => assert!(v.is_equal(&fe(55))),
        Value::Unknown => panic!("the last term is known"),
    }
    // Not yet bound to the public inputs.
    assert_eq!(layouter.copies().len(), 2);
    chip.expose_public(&mut layouter, &last, 2).unwrap();
    assert_eq!(layouter.copies().len(), 3);
    assert!(layouter.is_satisfied());
}

#[test]
fn narrow_without_witnesses_is_the_same_circuit() {
    let circuit = MyCircuit { terms: 7 };
    assert_eq!(circuit.without_witnesses(), circuit);
}

#[test]
fn narrow_a_second_chain_starts_below_the_first() {
    let (mut layouter, config) = fresh(10, &[1, 2, 3]);
    let chip = FiboChip::construct(config);
    let first = chip.assign(&mut layouter, 3).unwrap();
    assert_eq!(first.cell(), advice_cell(2));
    let second = chip.assign(&mut layouter, 4).unwrap();
    assert_eq!(second.cell(), advice_cell(6));
    assert_eq!(layouter.regions().len(), 2);
    assert_eq!(layouter.regions()[1].start, 3);
    assert_eq!(value_of(&layouter, 3), Some(1));
    assert_eq!(value_of(&layouter, 6), Some(5));
    // Row 2 has no chain below it, so nothing ties it to the second chain.
    assert!(layouter.is_satisfied());
}

#[test]
fn narrow_chip_errors_come_from_the_first_failing_step() {
    // A constraint system without the column and the selector.
    let mut layouter = Layouter::new(ConstraintSystem::new(), 10, vec![]);
    let chip = FiboChip::construct(FiboConfig {
        advice: AdviceColumn(0),
        selector: Selector(0),
        instance: InstanceColumn(0),
    });
    assert_eq!(chip.assign(&mut layouter, 10).unwrap_err(), Error::BoundsFailure);
    // With two terms no selector is touched, and the missing instance column is found first.
    assert_eq!(chip.assign(&mut layouter, 2).unwrap_err(), Error::BoundsFailure);
    // Equality not enabled on the advice column.
    let mut cs = ConstraintSystem::new();
    let instance = cs.instance_column();
    let advice = cs.advice_column();
    let selector = cs.selector();
    cs.enable_equality(Column::Instance(instance));
    let mut layouter = Layouter::new(cs, 10, publics(&[1, 1]));
    let chip = FiboChip::construct(FiboConfig { advice, selector, instance });
    assert_eq!(chip.assign(&mut layouter, 10).unwrap_err(), Error::ColumnNotInPermutation);
    // Too few rows for the chain.
    let (mut layouter, config) = fresh(5, &[1, 1]);
    let chip = FiboChip::construct(config);
    assert_eq!(chip.assign(&mut layouter, 6).unwrap_err(), Error::NotEnoughRowsAvailable);
}
