use tornado_halo2::circuit::{Assignment, ColumnKind, ConstraintSystem, Failure};
use tornado_halo2::merkle::CircuitError;
use tornado_halo2::circuits::hash::HashCircuit;
use tornado_halo2::field::{Fe, Value};
use tornado_halo2::hash::{hash_value, hash_values};

#[test]
fn test_hash_circuit() {
    let a = 11;
    let b = 6;

    let circuit = HashCircuit {
        a: Value::Known(Fe::from_u64(a)),
        b: Value::Known(Fe::from_u64(b)),
    };

    let public_input = vec![Fe::from_u64(a * b)];
    assert!(circuit.run(4, &public_input).unwrap().is_ok());

    let public_inputs2 = vec![Fe::from_u64(a * b + 1)];
    assert!(circuit.run(4, &public_inputs2).unwrap().is_err());
}

#[test]
fn hash_circuit_without_witnesses_fails_check() {
    let circuit = HashCircuit {
        a: Value::Known(Fe::from_u64(11)),
        b: Value::Known(Fe::from_u64(6)),
    };
    let shape = circuit.without_witnesses();
    assert!(shape.run(4, &vec![Fe::from_u64(66)]).unwrap().is_err());
}

#[test]
fn hash_circuit_missing_public_input_fails() {
    let circuit = HashCircuit {
        a: Value::Known(Fe::from_u64(3)),
        b: Value::Known(Fe::from_u64(4)),
    };
    assert!(circuit.run(4, &vec![]).unwrap().is_err());
}

#[test]
fn hash_values_is_the_product() {
    let v = vec![Fe::from_u64(2), Fe::from_u64(3), Fe::from_u64(7)];
    assert!(hash_values(&v).equals(&Fe::from_u64(42)));
    assert!(hash_values(&vec![]).equals(&Fe::from_u64(1)));
    assert!(hash_value(Fe::from_u64(9)).equals(&Fe::from_u64(9)));
}

#[test]
fn field_arithmetic_wraps_at_the_modulus() {
    let zero = Fe::from_u64(0);
    let one = Fe::from_u64(1);
    let minus_one = zero.sub(&one);
    assert!(minus_one.add(&one).equals(&zero));
    assert!(minus_one.mul(&minus_one).equals(&one));
    assert!(!minus_one.equals(&one));
    let bytes = minus_one.to_bytes();
    assert_eq!(bytes[0], 0);
    assert_eq!(bytes[31], 0x40);
}

#[test]
fn unknown_values_propagate() {
    let two = Value::Known(Fe::from_u64(2));
    let three = Value::Known(Fe::from_u64(3));
    match two.mul(&three).add(&two).sub(&three) {
        Value::Known(f) => assert!(f.equals(&Fe::from_u64(5))),
        Value::Unknown => panic!("known operands gave an unknown result"),
    }
    assert!(matches!(two.mul(&Value::Unknown), Value::Unknown));
    assert!(matches!(Value::Unknown.add(&three), Value::Unknown));
    assert!(matches!(two.sub(&Value::Unknown), Value::Unknown));
}

#[test]
fn hash_circuit_needs_two_rows() {

    let circuit = HashCircuit { a: Value::Known(Fe::from_u64(3)), b: Value::Known(Fe::from_u64(4)) };
    let public = vec![Fe::from_u64(12)];
    assert_eq!(circuit.run(0, &public).err(), Some(CircuitError::NotEnoughRows { k: 0 }));
    assert!(circuit.run(1, &public).unwrap().is_ok());
}

#[test]
fn hash_circuit_configure_and_layout() {
    let mut cs = ConstraintSystem::new();
    let config = HashCircuit::configure(&mut cs);
    assert_eq!(config.advice, [0, 1, 2]);
    assert_eq!(config.instance, 3);
    assert_eq!(cs.columns, vec![ColumnKind::Advice, ColumnKind::Advice, ColumnKind::Advice, ColumnKind::Instance]);
    assert_eq!(cs.gates[0].name, "hash");
    assert_eq!(config.s_hash, 0);
    assert_eq!(cs.gates.len(), 1);
    let circuit = HashCircuit { a: Value::Known(Fe::from_u64(11)), b: Value::Known(Fe::from_u64(6)) };
    let mut a = Assignment::new();
    let out = circuit.synthesize(config, &cs, &mut a);
    assert_eq!(out, 4);
    assert_eq!(a.cells.len(), 5);
    assert_eq!(a.copies, vec![(0, 2), (1, 3)]);
    assert_eq!(a.publics, vec![(4, 0)]);
    assert_eq!(a.gate_uses.len(), 1);
    assert_eq!(a.gate_uses[0].args, vec![2, 3, 4]);
}

#[test]
fn hash_circuit_failure_names_slot_and_row() {
    let circuit = HashCircuit { a: Value::Known(Fe::from_u64(11)), b: Value::Known(Fe::from_u64(6)) };
    let failures = circuit.run(4, &vec![Fe::from_u64(67)]).unwrap().unwrap_err();
    assert_eq!(failures.len(), 1);
    assert!(matches!(failures[0], Failure::Public { slot: 0, row: 1 }));
}
