use tornado_halo2::field::{Fe, Value};
use tornado_halo2::merkle::CircuitError;
use tornado_halo2::range::{range_table, RangeCheckCircuit};
use tornado_halo2::range_lookup::{twin_table, value_table, RangeLookupCircuit, ValueRangeCircuit};

fn known(v: &[u64]) -> Vec<Value> {
    v.iter().map(|x| Value::Known(Fe::from_u64(*x))).collect()
}

fn range_check_circuit() -> RangeCheckCircuit {
    let num_bits: usize = 4;
    let mut bits: Vec<u8> = vec![];
    let mut values: Vec<Value> = vec![];
    for num_bit in 1u8..=4 {
        for value in 1u64 << (num_bit - 1)..1u64 << num_bit {
            values.push(Value::Known(Fe::from_u64(value)));
            bits.push(num_bit);
        }
    }
    RangeCheckCircuit { num_bits, bits, values }
}

#[test]
fn test_multi_cols_rangecheck_lookup() {
    let circuit = range_check_circuit();
    assert_eq!(circuit.values.len(), 15);
    assert!(circuit.run(5).unwrap().is_ok());
}

#[test]
fn range_check_zero_tagged_one_passes() {
    let c = RangeCheckCircuit { num_bits: 4, bits: vec![1], values: known(&[0]) };
    assert!(c.run(5).unwrap().is_ok());
}

#[test]
fn range_check_value_above_range_fails() {
    for tag in 0u8..=6 {
        let c = RangeCheckCircuit { num_bits: 4, bits: vec![tag], values: known(&[16]) };
        assert!(c.run(5).unwrap().is_err());
    }
}

#[test]
fn range_check_wrong_tag_fails() {
    let c = RangeCheckCircuit { num_bits: 4, bits: vec![2], values: known(&[5]) };
    assert!(c.run(5).unwrap().is_err());
    let c = RangeCheckCircuit { num_bits: 4, bits: vec![3], values: known(&[5]) };
    assert!(c.run(5).unwrap().is_ok());
}

#[test]
fn range_check_unknown_or_mismatched_fails() {
    let c = RangeCheckCircuit { num_bits: 4, bits: vec![1], values: vec![Value::Unknown] };
    assert!(c.run(5).unwrap().is_err());
    let c = RangeCheckCircuit { num_bits: 4, bits: vec![1, 2], values: known(&[1]) };
    assert_eq!(c.run(5).err(), Some(CircuitError::ColumnLengths { values: 1, tags: 2 }));
}

#[test]
fn range_table_contents() {
    let t = range_table(4);
    assert_eq!(t.len(), 16);
    assert!(t[0][0].equals(&Fe::from_u64(1)) && t[0][1].equals(&Fe::from_u64(0)));
    assert!(t[1][0].equals(&Fe::from_u64(1)) && t[1][1].equals(&Fe::from_u64(1)));
    assert!(t[3][0].equals(&Fe::from_u64(2)) && t[3][1].equals(&Fe::from_u64(3)));
    assert!(t[15][0].equals(&Fe::from_u64(4)) && t[15][1].equals(&Fe::from_u64(15)));
}

#[test]
fn test_range_lookup() {
    let a = known(&[0, 1, 2, 3, 4]);
    let b = known(&[0, 0, 1, 2, 3, 4, 5, 6, 7, 8, 9]);
    let circuit = RangeLookupCircuit { range: 10, a, b };
    assert!(circuit.run(5).unwrap().is_ok());
}

#[test]
fn range_lookup_value_out_of_range_fails() {
    let c = RangeLookupCircuit { range: 10, a: known(&[10]), b: known(&[0, 10]) };
    assert!(c.run(5).unwrap().is_err());
    let c = RangeLookupCircuit { range: 10, a: known(&[9]), b: known(&[0, 9]) };
    assert!(c.run(5).unwrap().is_ok());
}

#[test]
fn range_lookup_offset_mismatch_fails() {
    let c = RangeLookupCircuit { range: 10, a: known(&[1, 2]), b: known(&[1, 2, 3]) };
    assert!(c.run(5).unwrap().is_err());
}

#[test]
fn range_lookup_short_column() {
    let c = RangeLookupCircuit { range: 10, a: known(&[1, 2]), b: known(&[0, 1]) };
    assert_eq!(c.run(5).err(), Some(CircuitError::ShortColumn { rows: 2, found: 2 }));
}

#[test]
fn twin_table_contents() {
    let t = twin_table(3);
    assert_eq!(t.len(), 3);
    assert!(t[2][0].equals(&Fe::from_u64(2)) && t[2][1].equals(&Fe::from_u64(2)));
}

#[test]
fn range_check_table_must_fit() {
    let c = RangeCheckCircuit { num_bits: 4, bits: vec![1], values: known(&[1]) };
    assert_eq!(c.run(3).err(), Some(CircuitError::NotEnoughRows { k: 3 }));
    assert!(c.run(4).unwrap().is_ok());
    let l = RangeLookupCircuit { range: 10, a: known(&[1]), b: known(&[0, 1]) };
    assert_eq!(l.run(3).err(), Some(CircuitError::NotEnoughRows { k: 3 }));
    assert!(l.run(4).unwrap().is_ok());
}

#[test]
fn lookup_example() {
    let mut values = known(&[0, 1, 2]);
    let circuit = ValueRangeCircuit { range: 16, values: values.clone() };
    assert!(circuit.run(5).unwrap().is_ok());

    values[1] = Value::Known(Fe::from_u64(18));
    let circuit = ValueRangeCircuit { range: 16, values };
    assert!(circuit.run(5).unwrap().is_err());
}

#[test]
fn value_range_edges() {
    let c = ValueRangeCircuit { range: 16, values: known(&[15]) };
    assert!(c.run(5).unwrap().is_ok());
    let c = ValueRangeCircuit { range: 16, values: known(&[16]) };
    assert!(c.run(5).unwrap().is_err());
    let c = ValueRangeCircuit { range: 16, values: vec![Value::Unknown] };
    assert!(c.run(5).unwrap().is_err());
    let c = ValueRangeCircuit { range: 16, values: known(&[1]) };
    assert_eq!(c.run(3).err(), Some(CircuitError::NotEnoughRows { k: 3 }));
    assert_eq!(value_table(4).len(), 4);
}
