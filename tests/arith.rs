use tornado_halo2::merkle::CircuitError;
use tornado_halo2::arith::ArithCircuit;
use tornado_halo2::field::{Fe, Value};

fn circuit() -> (ArithCircuit, Fe) {
    let c = Fe::from_u64(2);
    let a = Fe::from_u64(2);
    let b = Fe::from_u64(3);
    let e = c.mul(&a.mul(&a)).mul(&b.mul(&b)).add(&c);
    let out = e.mul(&e).mul(&e);
    (ArithCircuit { constant: c, a: Value::Known(a), b: Value::Known(b) }, out)
}

#[test]
fn test_simple_ship() {
    let (circuit, out) = circuit();
    let mut public_inputs = vec![out];
    assert!(circuit.run(5, &public_inputs).unwrap().is_ok());

    public_inputs[0] = public_inputs[0].add(&Fe::from_u64(1));
    assert!(circuit.run(5, &public_inputs).unwrap().is_err());
}

#[test]
fn arith_chain_expected_output() {
    let (circuit, out) = circuit();
    assert!(out.equals(&Fe::from_u64(405224)));
    assert!(circuit.run(5, &vec![Fe::from_u64(405224)]).unwrap().is_ok());
    assert!(circuit.run(5, &vec![Fe::from_u64(405225)]).unwrap().is_err());
}

#[test]
fn arith_chain_unknown_witness_fails() {
    let (circuit, out) = circuit();
    let shape = circuit.without_witnesses();
    assert!(shape.run(5, &vec![out]).unwrap().is_err());
    let half = ArithCircuit { constant: Fe::from_u64(2), a: Value::Known(Fe::from_u64(2)), b: Value::Unknown };
    assert!(half.run(5, &vec![out]).unwrap().is_err());
}

#[test]
fn arith_chain_needs_twelve_rows() {
    let (circuit, out) = circuit();
    assert_eq!(circuit.run(3, &vec![out]).err(), Some(CircuitError::NotEnoughRows { k: 3 }));
    assert!(circuit.run(4, &vec![out]).unwrap().is_ok());
}
