//! The membership circuit: knowledge of a nullifier and a secret whose
//! commitment is a leaf of a Merkle tree with a public root. Public slot 0
//! holds the nullifier hash, slot 1 the root.
use crate::circuit::{listed, names_cell, names_public, names_slot, names_unknown, ColumnKind, vals, shape, Shape, 
    after, cell_fe, cell_known, consistent, extends, fits_rows, has_unknown,
    lemma_consistent_extend, lemma_extends_trans, lemma_unknown_kept, public_holds, publics_hold,
    two_pow, verify, Assignment, ConstraintSystem, Failure,
};
use crate::field::{val_of, reduce, lift, Fe, Value};
use crate::hash::{hash_vals, hash_shape, load_pair_shape, hash2, hash_poly, HashChip};
use crate::merkle::{opt_vals, path_vals, path_node, path_shape, swap_polys, bits_boolean, boolean, circuit_root, lemma_circuit_root_matches, 
    all_known, compute_root, knowns, merkle_root, valid_path, CircuitError, MerkleChip,
    MerkleConfig,
};
use vstd::prelude::*;

verus! {

/// The columns of the membership circuit and the Merkle chip's configuration.
#[derive(Clone, Copy, Debug)]
pub struct TornadoConfig {
    pub advice: [usize; 3],
    pub instance: usize,
    pub merkle_config: MerkleConfig,
}

impl TornadoConfig {
    pub open spec fn wf(&self, cs: &ConstraintSystem) -> bool {
        self.merkle_config.wf(cs) && self.merkle_config.hash.advice == self.advice
    }
}

/// What loading and hashing two values declares: their region, then the
/// hash region over copies of the two.
pub open spec fn compute_hash_shape(s: Shape, cfg: TornadoConfig) -> Shape {
    let l = s.positions.len();
    hash_shape(load_pair_shape(s, cfg.advice), cfg.merkle_config.hash, l as usize, (l + 1) as usize)
}

/// What synthesis of a path of `n` levels declares: the nullifier hash bound
/// to slot 0, the commitment, the path from it, and the root bound to slot 1.
pub open spec fn tornado_shape(s: Shape, cfg: TornadoConfig, n: nat) -> Shape {
    let h = s.positions.len() + 4;
    let s2 = compute_hash_shape(s, cfg).public(h as usize, 0);
    let c = s2.positions.len() + 4;
    let s3 = compute_hash_shape(s2, cfg);
    path_shape(s3, cfg.merkle_config, c as usize, n).public(path_node(s3, cfg.merkle_config, c as usize, n), 1)
}

/// The values loading and hashing `x` and `y` appends.
pub open spec fn compute_hash_vals(v: Seq<Option<nat>>, x: Option<nat>, y: Option<nat>) -> Seq<Option<nat>> {
    let l = v.len();
    hash_vals(v.push(x).push(y), l as usize, (l + 1) as usize)
}

/// The values synthesis of `c` appends to `v`.
pub open spec fn tornado_vals(v: Seq<Option<nat>>, c: &TornadoCircuit) -> Seq<Option<nat>> {
    let n = val_of(c.nullifier);
    let v2 = compute_hash_vals(v, n, n);
    let v3 = compute_hash_vals(v2, n, val_of(c.secret));
    path_vals(
        v3,
        opt_vals(c.path_elements@),
        opt_vals(c.path_indices@),
        (v2.len() + 4) as usize,
        c.path_elements@.len(),
    )
}

/// Loads private values and hashes them, for the membership circuit.
pub struct TornadoChip {
    pub config: TornadoConfig,
}

impl TornadoChip {
    pub fn construct(config: TornadoConfig) -> (r: TornadoChip)
        ensures
            r.config == config,
    {
        TornadoChip { config }
    }

    /// Configures the Merkle chip, and with it the hash chip, over shared columns.
    pub fn configure(cs: &mut ConstraintSystem, advice: [usize; 3], instance: usize) -> (r: TornadoConfig)
        ensures
            r.wf(final(cs)),
            r.advice == advice,
            r.instance == instance,
            r.merkle_config.advice == advice,
            r.merkle_config.hash.advice == advice,
            r.merkle_config.hash.instance == instance,
            r.merkle_config.s_swap == old(cs).gates@.len(),
            r.merkle_config.hash.s_hash == old(cs).gates@.len() + 1,
            final(cs).gates@[old(cs).gates@.len() as int].name@ == "swap"@,
            final(cs).gates@[old(cs).gates@.len() as int + 1].name@ == "hash"@,
            final(cs).columns@ == old(cs).columns@,
            final(cs).gates@.len() == old(cs).gates@.len() + 2,
            forall|i: int| 0 <= i < old(cs).gates@.len() ==> final(cs).gates@[i] == #[trigger] old(cs).gates@[i],
            final(cs).lookups@ == old(cs).lookups@,
    {
        let merkle_config = MerkleChip::configure(cs, advice, instance);
        TornadoConfig { advice, instance, merkle_config }
    }

    /// Loads two private values in one region and hashes them; returns the
    /// cell of the hash.
    pub fn compute_hash(&self, cs: &ConstraintSystem, a: &mut Assignment, x: Value, y: Value) -> (out: usize)
        ensures
            extends(old(a), final(a)),
            final(a).tables@ == old(a).tables@,
            out < final(a).cells@.len(),
            lift(x, y, final(a).cells@[out as int].value, |p: int, q: int| p * q),
            final(a).publics@ == old(a).publics@,
            final(a).next_row == after(old(a).next_row, 2),
            shape(final(a)) == compute_hash_shape(shape(old(a)), self.config),
            vals(final(a)) == compute_hash_vals(vals(old(a)), val_of(x), val_of(y)),
            out == old(a).cells@.len() + 4,
            self.config.wf(cs) && consistent(cs, old(a)) && x is Known && y is Known ==> consistent(cs, final(a)),
    {
        let ghost a0 = *old(a);
        let base = a.region(1);
        let left = a.assign(self.config.advice[0], base, x);
        let right = a.assign(self.config.advice[1], base, y);
        let ghost a1 = *a;
        proof {
            assert(extends(&a0, &a1));
            if self.config.wf(cs) && consistent(cs, &a0) && x is Known && y is Known {
                lemma_consistent_extend(cs, &a0, &a1);
            }
        }
        let chip = HashChip::construct(self.config.merkle_config.hash);
        let out = chip.hash(cs, a, left, right);
        proof {
            lemma_extends_trans(&a0, &a1, a);
            assert(shape(&a1) == load_pair_shape(shape(&a0), self.config.advice));
            assert(vals(&a1) == vals(&a0).push(val_of(x)).push(val_of(y)));
        }
        out
    }
}

/// The witness of the membership circuit.
#[derive(Debug)]
pub struct TornadoCircuit {
    pub nullifier: Value,
    pub secret: Value,
    pub path_elements: Vec<Value>,
    pub path_indices: Vec<Value>,
}

/// Every witness value known, the two lists of one length, every bit zero or one.
pub open spec fn valid_witness(c: &TornadoCircuit) -> bool {
    c.nullifier is Known && c.secret is Known && valid_path(c.path_elements@, c.path_indices@)
}

/// The rows a synthesis occupies: two for each of the two hashes, three
/// for each level of the path.
pub open spec fn rows_needed(c: &TornadoCircuit) -> int {
    4 + 3 * c.path_elements@.len() as int
}

/// Every witness value is known.
pub open spec fn witness_known(c: &TornadoCircuit) -> bool {
    c.nullifier is Known && c.secret is Known && all_known(c.path_elements@, c.path_indices@)
}

/// The nullifier hash a valid witness commits to.
pub open spec fn nullifier_hash(c: &TornadoCircuit) -> nat {
    hash2(c.nullifier->Known_0.val(), c.nullifier->Known_0.val())
}

/// The root a valid witness reaches from its commitment.
pub open spec fn root(c: &TornadoCircuit) -> nat {
    merkle_root(
        hash2(c.nullifier->Known_0.val(), c.secret->Known_0.val()),
        knowns(c.path_elements@),
        knowns(c.path_indices@),
    )
}

/// The root the circuit reaches from the commitment of a known witness.
pub open spec fn circuit_root_of(c: &TornadoCircuit) -> nat {
    circuit_root(
        hash2(c.nullifier->Known_0.val(), c.secret->Known_0.val()),
        knowns(c.path_elements@),
        knowns(c.path_indices@),
    )
}

/// The public input vector holds the nullifier hash and the circuit's root
/// of a known witness.
pub open spec fn circuit_public(c: &TornadoCircuit, instance: Seq<Fe>) -> bool {
    &&& instance.len() >= 2
    &&& instance[0].val() == nullifier_hash(c)
    &&& instance[1].val() == circuit_root_of(c)
}

/// For a valid witness the circuit's root is the Merkle root.
pub proof fn lemma_valid_witness_root(c: &TornadoCircuit)
    requires
        valid_witness(c),
    ensures
        circuit_root_of(c) == root(c),
        bits_boolean(knowns(c.path_indices@)),
        witness_known(c),
{
    let bs = knowns(c.path_indices@);
    assert forall|i: int| 0 <= i < bs.len() implies (#[trigger] bs[i]).val() <= 1 by {
        assert(c.path_indices@[i] is Known);
    }
    assert forall|i: int| 0 <= i < bs.len() implies boolean(#[trigger] bs[i].val()) by {
        assert(bs[i].val() <= 1);
        if bs[i].val() == 1 {
            assert(reduce(1int * 1) == 1);
        }
    }
    lemma_circuit_root_matches(
        hash2(c.nullifier->Known_0.val(), c.secret->Known_0.val()),
        knowns(c.path_elements@),
        bs,
    );
}

/// The public input vector holds the nullifier hash and the root of `c`.
pub open spec fn expected_public(c: &TornadoCircuit, instance: Seq<Fe>) -> bool {
    &&& instance.len() >= 2
    &&& instance[0].val() == nullifier_hash(c)
    &&& instance[1].val() == root(c)
}

impl TornadoCircuit {
    /// The same circuit with every witness value unknown and the same path
    /// length, for shape-only synthesis.
    pub fn without_witnesses(&self) -> (r: TornadoCircuit)
        ensures
            r.nullifier is Unknown,
            r.secret is Unknown,
            r.path_elements@.len() == self.path_elements@.len(),
            r.path_indices@.len() == self.path_indices@.len(),
            forall|i: int| 0 <= i < r.path_elements@.len() ==> (#[trigger] r.path_elements@[i]) is Unknown,
            forall|i: int| 0 <= i < r.path_indices@.len() ==> (#[trigger] r.path_indices@[i]) is Unknown,
    {
        let mut e: Vec<Value> = Vec::new();
        let mut i: usize = 0;
        while i < self.path_elements.len()
            invariant
                i <= self.path_elements@.len(),
                e@.len() == i,
                forall|k: int| 0 <= k < i ==> (#[trigger] e@[k]) is Unknown,
            decreases self.path_elements@.len() - i,
        {
            e.push(Value::Unknown);
            i = i + 1;
        }
        let mut b: Vec<Value> = Vec::new();
        let mut i: usize = 0;
        while i < self.path_indices.len()
            invariant
                i <= self.path_indices@.len(),
                b@.len() == i,
                forall|k: int| 0 <= k < i ==> (#[trigger] b@[k]) is Unknown,
            decreases self.path_indices@.len() - i,
        {
            b.push(Value::Unknown);
            i = i + 1;
        }
        TornadoCircuit { nullifier: Value::Unknown, secret: Value::Unknown, path_elements: e, path_indices: b }
    }

    /// Allocates three new advice columns and one new instance column and
    /// configures the chips over them: the swap gate, then the hash gate, are
    /// appended to the gates already registered. Nothing here reads a witness.
    pub fn configure(cs: &mut ConstraintSystem) -> (r: TornadoConfig)
        ensures
            r.wf(final(cs)),
            r.advice@ == seq![
                old(cs).columns@.len() as usize,
                (old(cs).columns@.len() + 1) as usize,
                (old(cs).columns@.len() + 2) as usize,
            ],
            r.instance == old(cs).columns@.len() + 3,
            final(cs).columns@ == old(cs).columns@.push(ColumnKind::Advice).push(ColumnKind::Advice).push(
                ColumnKind::Advice,
            ).push(ColumnKind::Instance),
            r.merkle_config.advice == r.advice,
            r.merkle_config.hash.advice == r.advice,
            r.merkle_config.hash.instance == r.instance,
            final(cs).gates@[old(cs).gates@.len() as int].name@ == "swap"@,
            final(cs).gates@[old(cs).gates@.len() as int + 1].name@ == "hash"@,
            r.merkle_config.s_swap == old(cs).gates@.len(),
            r.merkle_config.hash.s_hash == old(cs).gates@.len() + 1,
            final(cs).gates@.len() == old(cs).gates@.len() + 2,
            final(cs).gates@[old(cs).gates@.len() as int].width == 5,
            final(cs).gates@[old(cs).gates@.len() as int].polys@ == swap_polys(),
            final(cs).gates@[old(cs).gates@.len() as int + 1].width == 3,
            final(cs).gates@[old(cs).gates@.len() as int + 1].polys@ == seq![hash_poly()],
            forall|i: int| 0 <= i < old(cs).gates@.len() ==> final(cs).gates@[i] == #[trigger] old(cs).gates@[i],
            final(cs).lookups@ == old(cs).lookups@,
    {
        let a0 = cs.allocate_column(ColumnKind::Advice);
        let a1 = cs.allocate_column(ColumnKind::Advice);
        let a2 = cs.allocate_column(ColumnKind::Advice);
        let instance = cs.allocate_column(ColumnKind::Instance);
        TornadoChip::configure(cs, [a0, a1, a2], instance)
    }

    /// Hashes the nullifier with itself and binds it to slot 0; hashes the
    /// nullifier with the secret into the commitment; proves the path from the
    /// commitment and binds the root to slot 1. Returns the two bound cells.
    pub fn synthesize(&self, config: TornadoConfig, cs: &ConstraintSystem, a: &mut Assignment) -> (r: Result<(usize, usize), CircuitError>)
        ensures
            extends(old(a), final(a)),
            final(a).tables@ == old(a).tables@,
            r.is_ok() == (self.path_elements@.len() == self.path_indices@.len()),
            r is Err ==> final(a).cells@ == old(a).cells@ && final(a).publics@ == old(a).publics@
                && final(a).next_row == old(a).next_row,
            r is Ok ==> final(a).next_row == after(old(a).next_row, rows_needed(self)),
            r is Err ==> shape(final(a)) == shape(old(a)),
            r matches Ok((h, t)) ==> shape(final(a)) == tornado_shape(shape(old(a)), config, self.path_elements@.len())
                && h == old(a).cells@.len() + 4 && vals(final(a)) == tornado_vals(vals(old(a)), self),
            r matches Err(e) ==> e == (CircuitError::LengthMismatch {
                elements: self.path_elements@.len() as usize,
                indices: self.path_indices@.len() as usize,
            }),
            r matches Ok((h, t)) ==> {
                &&& h < final(a).cells@.len()
                &&& t < final(a).cells@.len()
                &&& final(a).publics@ == old(a).publics@.push((h, 0usize)).push((t, 1usize))
                &&& final(a).cells@[h as int].value is Unknown <== self.nullifier is Unknown
                &&& !witness_known(self) ==> has_unknown(final(a))
                &&& config.wf(cs) && witness_known(self) ==> {
                    &&& cell_known(final(a), h)
                    &&& cell_known(final(a), t)
                    &&& cell_fe(final(a), h).val() == nullifier_hash(self)
                    &&& cell_fe(final(a), t).val() == circuit_root_of(self)
                    &&& !bits_boolean(knowns(self.path_indices@)) ==> !consistent(cs, final(a))
                    &&& consistent(cs, old(a)) && bits_boolean(knowns(self.path_indices@)) ==> consistent(
                        cs,
                        final(a),
                    )
                }
            },
    {
        if self.path_elements.len() != self.path_indices.len() {
            return Err(CircuitError::LengthMismatch {
                elements: self.path_elements.len(),
                indices: self.path_indices.len(),
            });
        }
        let ghost a0 = *old(a);
        let chip = TornadoChip::construct(config);
        let h = chip.compute_hash(cs, a, self.nullifier, self.nullifier);
        let ghost a1 = *a;
        a.constrain_public(h, 0);
        let ghost a2 = *a;
        let c = chip.compute_hash(cs, a, self.nullifier, self.secret);
        let ghost a3 = *a;
        let merkle = MerkleChip::construct(config.merkle_config);
        let t = match merkle.prove_tree_root(cs, a, c, &self.path_elements, &self.path_indices) {
            Ok(t) => t,
            Err(e) => {
                return Err(e);
            },
        };
        let ghost a4 = *a;
        a.constrain_public(t, 1);
        proof {
            if !witness_known(self) {
                if self.nullifier is Unknown || self.secret is Unknown {
                    assert(a3.cells@[c as int].value is Unknown);
                    lemma_unknown_kept(&a3, &a4);
                } else {
                    assert(has_unknown(&a4));
                }
                lemma_unknown_kept(&a4, a);
            }
            lemma_extends_trans(&a0, &a1, &a2);
            lemma_extends_trans(&a0, &a2, &a3);
            lemma_extends_trans(&a0, &a3, &a4);
            lemma_extends_trans(&a0, &a4, a);
            if config.wf(cs) && witness_known(self) {
                crate::circuit::lemma_extend_keeps(cs, &a1, &a2);
                crate::circuit::lemma_extend_keeps(cs, &a1, &a3);
                crate::circuit::lemma_extend_keeps(cs, &a3, &a4);
                crate::circuit::lemma_extend_keeps(cs, &a1, &a4);
                crate::circuit::lemma_extend_keeps(cs, &a4, a);
                assert(cell_known(&a1, h));
                assert(cell_known(&a3, c));
                if consistent(cs, &a0) {
                    lemma_consistent_extend(cs, &a1, &a2);
                }
                if bits_boolean(knowns(self.path_indices@)) {
                    if consistent(cs, &a0) {
                        lemma_consistent_extend(cs, &a4, a);
                    }
                } else {
                    crate::circuit::lemma_failing_gate_kept(cs, &a4, a);
                }
            }
        }
        Ok((h, t))
    }

    /// Configures and synthesizes the circuit in a grid of `2^k` rows, then
    /// checks it against the public input vector. A length mismatch, or a
    /// grid too small for the synthesis, fails synthesis. With every value
    /// known the check passes exactly when every bit is a root of
    /// `b * b - b`, slot 0 holds the nullifier hash and slot 1 the root the
    /// circuit computes, which for bits of zero and one is the Merkle root;
    /// with any value unknown it fails.
    pub fn run(&self, k: u32, instance: &Vec<Fe>) -> (r: Result<Result<(), Vec<Failure>>, CircuitError>)
        ensures
            r.is_ok() == (self.path_elements@.len() == self.path_indices@.len()
                && after(0, rows_needed(self)) <= two_pow(k as nat)),
            self.path_elements@.len() != self.path_indices@.len() ==> r == Err::<Result<(), Vec<Failure>>, _>(
                CircuitError::LengthMismatch {
                    elements: self.path_elements@.len() as usize,
                    indices: self.path_indices@.len() as usize,
                },
            ),
            self.path_elements@.len() == self.path_indices@.len() && r is Err ==> r == Err::<Result<(), Vec<Failure>>, _>(
                CircuitError::NotEnoughRows { k },
            ),
            r matches Ok(v) ==> (witness_known(self) ==> v.is_ok() == (bits_boolean(knowns(self.path_indices@))
                && circuit_public(self, instance@))),
            r matches Ok(v) ==> (valid_witness(self) ==> v.is_ok() == expected_public(self, instance@)),
            r matches Ok(v) ==> (!witness_known(self) ==> v.is_err()),
            r matches Ok(Err(fs)) ==> (!witness_known(self) ==> listed(fs@, names_unknown())),
            r matches Ok(Err(fs)) ==> (witness_known(self) && instance@.len() > 0 && instance@[0].val()
                != nullifier_hash(self) ==> listed(fs@, names_slot(0))),
            r matches Ok(Err(fs)) ==> (witness_known(self) && instance@.len() > 1 && instance@[1].val()
                != circuit_root_of(self) ==> listed(fs@, names_slot(1))),
    {
        let mut cs = ConstraintSystem::new();
        let config = TornadoCircuit::configure(&mut cs);
        let mut a = Assignment::new();
        assert(consistent(&cs, &a));
        match self.synthesize(config, &cs, &mut a) {
            Err(e) => Err(e),
            Ok((h, t)) => {
                if !fits_rows(&a, k) {
                    return Err(CircuitError::NotEnoughRows { k });
                }
                proof {
                    assert(a.publics@ =~= seq![(h, 0usize), (t, 1usize)]);
                    if !witness_known(self) {
                        assert(!consistent(&cs, &a));
                    }
                    if valid_witness(self) {
                        lemma_valid_witness_root(self);
                    }
                    if witness_known(self) {
                        if circuit_public(self, instance@) {
                            assert(public_holds(&a, a.publics@[0], instance@));
                            assert(public_holds(&a, a.publics@[1], instance@));
                            assert(publics_hold(&a, instance@));
                        }
                        if publics_hold(&a, instance@) {
                            assert(public_holds(&a, a.publics@[0], instance@));
                            assert(public_holds(&a, a.publics@[1], instance@));
                        }
                    }
                }
                let v = verify(&cs, &a, instance);
                proof {
                    if v is Err {
                        let fs = v->Err_0;
                        if !witness_known(self) {
                            let i = choose|i: int| 0 <= i < a.cells@.len() && (#[trigger] a.cells@[i]).value is Unknown;
                            let j = choose|j: int| 0 <= j < fs@.len() && names_cell(a.cells@[i])(#[trigger] fs@[j]);
                            assert(names_unknown()(fs@[j]));
                        } else {
                            if instance@.len() > 0 && instance@[0].val() != nullifier_hash(self) {
                                assert(!public_holds(&a, a.publics@[0], instance@));
                                let j = choose|j: int| 0 <= j < fs@.len() && names_public(&a, a.publics@[0])(#[trigger] fs@[j]);
                                assert(names_slot(0)(fs@[j]));
                            }
                            if instance@.len() > 1 && instance@[1].val() != circuit_root_of(self) {
                                assert(!public_holds(&a, a.publics@[1], instance@));
                                let j = choose|j: int| 0 <= j < fs@.len() && names_public(&a, a.publics@[1])(#[trigger] fs@[j]);
                                assert(names_slot(1)(fs@[j]));
                            }
                        }
                    }
                }
                Ok(v)
            },
        }
    }
}

/// Computes off-circuit the public input vector of a witness: the nullifier
/// hash in slot 0 and the Merkle root of the commitment in slot 1.
pub fn public_inputs(nullifier: Fe, secret: Fe, path_elements: &Vec<Fe>, path_indices: &Vec<Fe>) -> (r: Result<Vec<Fe>, CircuitError>)
    ensures
        r.is_ok() == (path_elements@.len() == path_indices@.len()),
        r matches Err(e) ==> e == (CircuitError::LengthMismatch {
            elements: path_elements@.len() as usize,
            indices: path_indices@.len() as usize,
        }),
        r matches Ok(v) ==> {
            &&& v@.len() == 2
            &&& v@[0].val() == hash2(nullifier.val(), nullifier.val())
            &&& v@[1].val() == merkle_root(hash2(nullifier.val(), secret.val()), path_elements@, path_indices@)
        },
{
    let pair = vec![nullifier, secret];
    assert(pair@ =~= seq![nullifier, secret]);
    proof {
        crate::hash::lemma_product_pair(nullifier, secret);
        crate::hash::lemma_product_pair(nullifier, nullifier);
    }
    let commitment = crate::hash::hash_values(&pair);
    let root = compute_root(commitment, path_elements, path_indices)?;
    let twice = vec![nullifier, nullifier];
    assert(twice@ =~= seq![nullifier, nullifier]);
    let nullifier_hash = crate::hash::hash_values(&twice);
    Ok(vec![nullifier_hash, root])
}

/// A witness whose values are the known forms of the given elements.
pub open spec fn witness_of(c: &TornadoCircuit, nullifier: Fe, secret: Fe, path_elements: Seq<Fe>, path_indices: Seq<Fe>) -> bool {
    &&& c.nullifier == Value::Known(nullifier)
    &&& c.secret == Value::Known(secret)
    &&& c.path_elements@ == path_elements.map_values(|f: Fe| Value::Known(f))
    &&& c.path_indices@ == path_indices.map_values(|f: Fe| Value::Known(f))
}

/// Completeness: for a valid witness, the public input vector computed off
/// the circuit is one that the circuit's check accepts.
pub proof fn lemma_honest_inputs_accepted(
    c: &TornadoCircuit,
    nullifier: Fe,
    secret: Fe,
    path_elements: Seq<Fe>,
    path_indices: Seq<Fe>,
    instance: Seq<Fe>,
)
    requires
        witness_of(c, nullifier, secret, path_elements, path_indices),
        valid_witness(c),
        instance.len() == 2,
        instance[0].val() == hash2(nullifier.val(), nullifier.val()),
        instance[1].val() == merkle_root(hash2(nullifier.val(), secret.val()), path_elements, path_indices),
    ensures
        expected_public(c, instance),
{
    assert(knowns(c.path_elements@) =~= path_elements);
    assert(knowns(c.path_indices@) =~= path_indices);
}

/// The root computed off the circuit from the commitment of a valid witness
/// is the value of the root cell that synthesis binds to slot 1.
pub proof fn lemma_off_circuit_root_matches(
    c: &TornadoCircuit,
    nullifier: Fe,
    secret: Fe,
    path_elements: Seq<Fe>,
    path_indices: Seq<Fe>,
    off_circuit_root: Fe,
)
    requires
        witness_of(c, nullifier, secret, path_elements, path_indices),
        off_circuit_root.val() == merkle_root(hash2(nullifier.val(), secret.val()), path_elements, path_indices),
    ensures
        off_circuit_root.val() == root(c),
{
    assert(knowns(c.path_elements@) =~= path_elements);
    assert(knowns(c.path_indices@) =~= path_indices);
}

/// The shape synthesis declares does not depend on the witness: two
/// circuits with paths of one length, such as a circuit and the one its
/// `without_witnesses` returns, synthesized from assignments of one shape,
/// lay out the same cells, gate uses, copies and bindings.
pub proof fn lemma_shape_independent_of_witness(
    c: &TornadoCircuit,
    d: &TornadoCircuit,
    config: TornadoConfig,
    o1: &Assignment,
    n1: &Assignment,
    o2: &Assignment,
    n2: &Assignment,
)
    requires
        shape(n1) == tornado_shape(shape(o1), config, c.path_elements@.len()),
        shape(n2) == tornado_shape(shape(o2), config, d.path_elements@.len()),
        c.path_elements@.len() == d.path_elements@.len(),
        shape(o1) == shape(o2),
    ensures
        shape(n1) == shape(n2),
{
}

/// Synthesizing one witness twice, from assignments of one shape holding
/// the same values, gives assignments of one shape holding the same values.
pub proof fn lemma_resynthesis_identical(
    c: &TornadoCircuit,
    config: TornadoConfig,
    o1: &Assignment,
    n1: &Assignment,
    o2: &Assignment,
    n2: &Assignment,
)
    requires
        shape(n1) == tornado_shape(shape(o1), config, c.path_elements@.len()),
        shape(n2) == tornado_shape(shape(o2), config, c.path_elements@.len()),
        vals(n1) == tornado_vals(vals(o1), c),
        vals(n2) == tornado_vals(vals(o2), c),
        shape(o1) == shape(o2),
        vals(o1) == vals(o2),
    ensures
        shape(n1) == shape(n2),
        vals(n1) == vals(n2),
{
}

/// Soundness against tampering: once a public input vector is accepted for a
/// valid witness, no other vector of the same length is.
pub proof fn lemma_tampered_rejected(c: &TornadoCircuit, instance: Seq<Fe>, tampered: Seq<Fe>)
    requires
        valid_witness(c),
        expected_public(c, instance),
        instance.len() == 2,
        tampered.len() == 2,
        exists|i: int| 0 <= i < 2 && (#[trigger] tampered[i]).val() != instance[i].val(),
    ensures
        !expected_public(c, tampered),
{
    let i = choose|i: int| 0 <= i < 2 && (#[trigger] tampered[i]).val() != instance[i].val();
    assert(i == 0 || i == 1);
}

} // verus!
