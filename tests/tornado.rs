use tornado_halo2::circuit::Failure;
use tornado_halo2::circuit::{verify, Assignment, ConstraintSystem};
use tornado_halo2::circuits::tornado::{public_inputs, TornadoCircuit};
use tornado_halo2::field::{Fe, Value};
use tornado_halo2::merkle::{compute_root, CircuitError};

fn fes(v: &[u64]) -> Vec<Fe> {
    v.iter().map(|x| Fe::from_u64(*x)).collect()
}

fn known(v: &[Fe]) -> Vec<Value> {
    v.iter().map(|x| Value::Known(*x)).collect()
}

fn circuit() -> (TornadoCircuit, Vec<Fe>) {
    let nullifier = Fe::from_u64(0x456);
    let secret = Fe::from_u64(0xabc);
    let path_elements = fes(&[2, 5, 7, 14, 23]);
    let path_indices = fes(&[0, 0, 1, 1, 0]);
    let public = public_inputs(nullifier, secret, &path_elements, &path_indices).unwrap();
    let c = TornadoCircuit {
        nullifier: Value::Known(nullifier),
        secret: Value::Known(secret),
        path_elements: known(&path_elements),
        path_indices: known(&path_indices),
    };
    (c, public)
}

#[test]
fn tornado_circuit_accepts_honest_public_inputs() {
    let (c, public) = circuit();
    assert!(c.run(10, &public).unwrap().is_ok());
}

#[test]
fn tornado_circuit_rejects_tampered_public_inputs() {
    let (c, public) = circuit();
    let mut p = public.clone();
    p[0] = p[0].add(&Fe::from_u64(1));
    assert!(c.run(10, &p).unwrap().is_err());
    let mut p = public.clone();
    p[1] = p[1].add(&Fe::from_u64(1));
    assert!(c.run(10, &p).unwrap().is_err());
}

#[test]
fn tornado_public_inputs_values() {
    let (_, public) = circuit();
    assert_eq!(public.len(), 2);
    assert!(public[0].equals(&Fe::from_u64(1110 * 1110)));
    assert!(public[1].equals(&Fe::from_u64(3050280 * 22540)));
}

#[test]
fn merkle_root_off_circuit_matches_circuit() {
    let leaf = Fe::from_u64(0x456 * 0xabc);
    let root = compute_root(leaf, &fes(&[2, 5, 7, 14, 23]), &fes(&[0, 0, 1, 1, 0])).unwrap();
    assert!(root.equals(&Fe::from_u64(68753311200)));
    let (c, public) = circuit();
    assert!(public[1].equals(&root));
    let instance = vec![public[0], root];
    assert!(c.run(10, &instance).unwrap().is_ok());
}

#[test]
fn merkle_root_length_mismatch() {
    let r = compute_root(Fe::from_u64(1), &fes(&[2, 3]), &fes(&[0]));
    assert_eq!(r.err(), Some(CircuitError::LengthMismatch { elements: 2, indices: 1 }));
    let (mut c, public) = circuit();
    c.path_indices.pop();
    assert_eq!(
        c.run(10, &public).err(),
        Some(CircuitError::LengthMismatch { elements: 5, indices: 4 })
    );
}

#[test]
fn non_boolean_direction_bit_fails_check() {
    let (mut c, public) = circuit();
    c.path_indices[0] = Value::Known(Fe::from_u64(2));
    assert!(c.run(10, &public).unwrap().is_err());
}

#[test]
fn shape_only_synthesis_fails_check() {
    let (c, public) = circuit();
    let shape = c.without_witnesses();
    assert_eq!(shape.path_elements.len(), 5);
    assert!(shape.run(10, &public).unwrap().is_err());
}

#[test]
fn synthesis_is_repeatable() {
    let (c, public) = circuit();
    let first = c.run(10, &public).unwrap().is_ok();
    let second = c.run(10, &public).unwrap().is_ok();
    assert_eq!(first, second);
    let mut p = public.clone();
    p[1] = Fe::from_u64(5);
    assert_eq!(c.run(10, &p).unwrap().is_ok(), c.run(10, &p).unwrap().is_ok());
}

#[test]
fn resynthesis_gives_identical_assignment() {
    let (c, public) = circuit();
    let mut cs = ConstraintSystem::new();
    let config = TornadoCircuit::configure(&mut cs);
    let mut first = Assignment::new();
    let mut second = Assignment::new();
    assert!(c.synthesize(config, &cs, &mut first).is_ok());
    assert!(c.synthesize(config, &cs, &mut second).is_ok());
    assert_eq!(format!("{:?}", first.cells), format!("{:?}", second.cells));
    assert_eq!(first.copies, second.copies);
    assert_eq!(first.publics, second.publics);
    assert_eq!(first.gate_uses.len(), second.gate_uses.len());
    for (u, w) in first.gate_uses.iter().zip(second.gate_uses.iter()) {
        assert_eq!((u.gate, u.row, &u.args), (w.gate, w.row, &w.args));
    }
    assert_eq!(verify(&cs, &first, &public).is_ok(), verify(&cs, &second, &public).is_ok());
    assert!(verify(&cs, &first, &public).is_ok());
}

#[test]
fn tornado_circuit_row_budget() {
    let (c, public) = circuit();
    assert_eq!(c.run(4, &public).err(), Some(CircuitError::NotEnoughRows { k: 4 }));
    assert!(c.run(5, &public).unwrap().is_ok());
}

#[test]
fn failures_name_the_violated_constraint() {
    let (mut c, public) = circuit();
    let mut p = public.clone();
    p[1] = p[1].add(&Fe::from_u64(1));
    let failures = c.run(10, &p).unwrap().unwrap_err();
    assert!(failures.iter().any(|f| matches!(f, Failure::Public { slot: 1, .. })));
    assert!(!failures.iter().any(|f| matches!(f, Failure::Public { slot: 0, .. })));

    c.path_indices[2] = Value::Known(Fe::from_u64(3));
    let failures = c.run(10, &public).unwrap().unwrap_err();
    assert!(failures
        .iter()
        .any(|f| matches!(f, Failure::Gate { name, .. } if name.as_str() == "swap")));

    c.path_indices[2] = Value::Unknown;
    let failures = c.run(10, &public).unwrap().unwrap_err();
    assert!(failures.iter().any(|f| matches!(f, Failure::Unknown { .. })));
}

#[test]
fn shape_only_synthesis_lays_out_the_same_grid() {
    let (c, _) = circuit();
    let shape = c.without_witnesses();
    let mut cs = ConstraintSystem::new();
    let config = TornadoCircuit::configure(&mut cs);
    let mut known = Assignment::new();
    let mut unknown = Assignment::new();
    assert!(c.synthesize(config, &cs, &mut known).is_ok());
    assert!(shape.synthesize(config, &cs, &mut unknown).is_ok());
    assert_eq!(known.cells.len(), unknown.cells.len());
    for (x, y) in known.cells.iter().zip(unknown.cells.iter()) {
        assert_eq!((x.column, x.row), (y.column, y.row));
    }
    assert_eq!(known.copies, unknown.copies);
    assert_eq!(known.publics, unknown.publics);
    assert_eq!(known.next_row, unknown.next_row);
    for (u, w) in known.gate_uses.iter().zip(unknown.gate_uses.iter()) {
        assert_eq!((u.gate, u.row, &u.args), (w.gate, w.row, &w.args));
    }
    assert_eq!(known.gate_uses.len(), unknown.gate_uses.len());
}
