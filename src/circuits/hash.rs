//! A circuit that proves knowledge of two values whose hash is public.
use crate::circuit::{listed, names_cell, names_public, names_slot, names_unknown, ColumnKind, lemma_extends_trans, same_values, agree, shape, Shape, 
    after, cell_known, consistent, extends, fits_rows, public_holds, publics_hold, two_pow, verify,
    Assignment, ConstraintSystem, Failure,
};
use crate::field::{lift, Fe, Value};
use crate::merkle::CircuitError;
use crate::hash::{hash_poly, hash_shape, load_pair_shape, hash2, HashChip, HashConfig};
use vstd::prelude::*;

verus! {

/// The witness: two private values. Public slot 0 holds their hash.
#[derive(Clone, Copy, Debug)]
pub struct HashCircuit {
    pub a: Value,
    pub b: Value,
}

/// What synthesis declares: the two inputs, the hash region, and the
/// binding of the hash to slot 0.
pub open spec fn hash_circuit_shape(s: Shape, config: HashConfig) -> Shape {
    let l = s.positions.len();
    hash_shape(load_pair_shape(s, config.advice), config, l as usize, (l + 1) as usize).public(
        (l + 4) as usize,
        0,
    )
}

/// `n` is what synthesizing `c` turns `o` into: the shape above, and the
/// values of the five new cells (two inputs, their copies, their product).
pub open spec fn hash_synthesized(c: &HashCircuit, config: HashConfig, o: &Assignment, n: &Assignment) -> bool {
    let l = o.cells@.len() as int;
    &&& extends(o, n)
    &&& shape(n) == hash_circuit_shape(shape(o), config)
    &&& n.cells@[l].value == c.a
    &&& n.cells@[l + 1].value == c.b
    &&& n.cells@[l + 2].value == c.a
    &&& n.cells@[l + 3].value == c.b
    &&& lift(c.a, c.b, n.cells@[l + 4].value, |x: int, y: int| x * y)
}

/// Synthesizing one circuit twice, from assignments of one shape holding
/// agreeing values, gives assignments of one shape holding agreeing values.
pub proof fn lemma_resynthesis_identical(
    c: &HashCircuit,
    config: HashConfig,
    o1: &Assignment,
    n1: &Assignment,
    o2: &Assignment,
    n2: &Assignment,
)
    requires
        hash_synthesized(c, config, o1, n1),
        hash_synthesized(c, config, o2, n2),
        shape(o1) == shape(o2),
        same_values(o1, o2),
    ensures
        shape(n1) == shape(n2),
        same_values(n1, n2),
{
    let l = o1.cells@.len() as int;
    assert(shape(o1).positions.len() == l);
    assert(shape(n1).positions.len() == l + 5);
    assert(n1.cells@.len() == shape(n1).positions.len());
    assert(n2.cells@.len() == shape(n2).positions.len());
    assert forall|i: int| 0 <= i < n1.cells@.len() implies agree(#[trigger] n1.cells@[i].value, n2.cells@[i].value) by {
        if i < l {
            assert(agree(o1.cells@[i].value, o2.cells@[i].value));
            assert(n1.cells@[i] == o1.cells@[i]);
            assert(n2.cells@[i] == o2.cells@[i]);
        }
    }
}

/// The shape synthesis declares does not depend on the witness: a circuit
/// with unknown values, such as the one `without_witnesses` returns, lays
/// out the same grid as one with known values.
pub proof fn lemma_shape_independent_of_witness(
    c: &HashCircuit,
    d: &HashCircuit,
    config: HashConfig,
    o1: &Assignment,
    n1: &Assignment,
    o2: &Assignment,
    n2: &Assignment,
)
    requires
        hash_synthesized(c, config, o1, n1),
        hash_synthesized(d, config, o2, n2),
        shape(o1) == shape(o2),
    ensures
        shape(n1) == shape(n2),
{
}

impl HashCircuit {
    /// The same circuit with every witness value unknown, for shape-only synthesis.
    pub fn without_witnesses(&self) -> (r: HashCircuit)
        ensures
            r.a is Unknown,
            r.b is Unknown,
    {
        HashCircuit { a: Value::Unknown, b: Value::Unknown }
    }

    /// Allocates three new advice columns and a new instance column and
    /// configures the hash chip over them.
    pub fn configure(cs: &mut ConstraintSystem) -> (r: HashConfig)
        ensures
            r.wf(final(cs)),
            r.advice@ == seq![
                old(cs).columns@.len() as usize,
                (old(cs).columns@.len() + 1) as usize,
                (old(cs).columns@.len() + 2) as usize,
            ],
            r.instance == old(cs).columns@.len() + 3,
            final(cs).columns@ == old(cs).columns@.push(ColumnKind::Advice).push(ColumnKind::Advice).push(
                ColumnKind::Advice,
            ).push(ColumnKind::Instance),
            r.s_hash == old(cs).gates@.len(),
            final(cs).gates@[old(cs).gates@.len() as int].name@ == "hash"@,
            final(cs).gates@.len() == old(cs).gates@.len() + 1,
            final(cs).gates@[old(cs).gates@.len() as int].width == 3,
            final(cs).gates@[old(cs).gates@.len() as int].polys@ == seq![hash_poly()],
            forall|i: int| 0 <= i < old(cs).gates@.len() ==> final(cs).gates@[i] == #[trigger] old(cs).gates@[i],
            final(cs).lookups@ == old(cs).lookups@,
    {
        let a0 = cs.allocate_column(ColumnKind::Advice);
        let a1 = cs.allocate_column(ColumnKind::Advice);
        let a2 = cs.allocate_column(ColumnKind::Advice);
        let instance = cs.allocate_column(ColumnKind::Instance);
        HashChip::configure(cs, [a0, a1, a2], instance)
    }

    /// Loads the two private values, hashes them, and binds the hash to
    /// public slot 0. Returns the cell of the hash.
    pub fn synthesize(&self, config: HashConfig, cs: &ConstraintSystem, a: &mut Assignment) -> (out: usize)
        ensures
            extends(old(a), final(a)),
            final(a).tables@ == old(a).tables@,
            out < final(a).cells@.len(),
            lift(self.a, self.b, final(a).cells@[out as int].value, |x: int, y: int| x * y),
            final(a).publics@ == old(a).publics@.push((out, 0usize)),
            final(a).next_row == after(old(a).next_row, 2),
            hash_synthesized(self, config, old(a), final(a)),
            out == old(a).cells@.len() + 4,
            config.wf(cs) && consistent(cs, old(a)) && self.a is Known && self.b is Known
                ==> consistent(cs, final(a)),
    {
        let ghost a0 = *old(a);
        let base = a.region(1);
        let left = a.assign(config.advice[0], base, self.a);
        let right = a.assign(config.advice[1], base, self.b);
        let ghost a1 = *a;
        proof {
            assert(extends(&a0, &a1));
            if config.wf(cs) && consistent(cs, &a0) && self.a is Known && self.b is Known {
                crate::circuit::lemma_consistent_extend(cs, &a0, &a1);
            }
        }
        let chip = HashChip::construct(config);
        let out = chip.hash(cs, a, left, right);
        let ghost a2 = *a;
        a.constrain_public(out, 0);
        proof {
            lemma_extends_trans(&a0, &a1, &a2);
            lemma_extends_trans(&a0, &a2, a);
            assert(a2.cells@[a0.cells@.len() as int] == a1.cells@[a0.cells@.len() as int]);
            assert(a2.cells@[a0.cells@.len() as int + 1] == a1.cells@[a0.cells@.len() as int + 1]);
            assert(shape(&a1) == load_pair_shape(shape(&a0), config.advice));
            assert(shape(&a2) == hash_shape(shape(&a1), config, left, right));
            assert(a.cells@ == a2.cells@);
            if config.wf(cs) && consistent(cs, &a0) && self.a is Known && self.b is Known {
                assert(cell_known(&a1, left));
                assert(cell_known(&a1, right));
                assert(consistent(cs, &a2));
                crate::circuit::lemma_consistent_extend(cs, &a2, &*a);
            }
        }
        out
    }

    /// Configures and synthesizes the circuit in a grid of `2^k` rows, then
    /// checks it against the public input vector. Synthesis fails when the
    /// grid is too small for its two rows. With both values known the check
    /// passes exactly when slot 0 holds their hash; with either unknown it fails.
    pub fn run(&self, k: u32, instance: &Vec<Fe>) -> (r: Result<Result<(), Vec<Failure>>, CircuitError>)
        ensures
            r.is_ok() == (2 <= two_pow(k as nat)),
            r matches Err(e) ==> e == (CircuitError::NotEnoughRows { k }),
            r matches Ok(v) ==> match (self.a, self.b) {
                (Value::Known(x), Value::Known(y)) => v.is_ok() == (instance@.len() > 0
                    && instance@[0].val() == hash2(x.val(), y.val())),
                _ => v.is_err(),
            },
            r matches Ok(Err(fs)) ==> (self.a is Known && self.b is Known ==> listed(fs@, names_slot(0))),
            r matches Ok(Err(fs)) ==> (!(self.a is Known && self.b is Known) ==> listed(fs@, names_unknown())),
    {
        let mut cs = ConstraintSystem::new();
        let config = HashCircuit::configure(&mut cs);
        let mut a = Assignment::new();
        assert(consistent(&cs, &a));
        let out = self.synthesize(config, &cs, &mut a);
        if !fits_rows(&a, k) {
            return Err(CircuitError::NotEnoughRows { k });
        }
        proof {
            if self.a is Known && self.b is Known {
                assert(consistent(&cs, &a));
                assert(a.publics@[0] == (out, 0usize));
                if public_holds(&a, (out, 0usize), instance@) {
                    assert(publics_hold(&a, instance@));
                }
                if publics_hold(&a, instance@) {
                    assert(public_holds(&a, a.publics@[0], instance@));
                }
            }
            assert(a.publics@ =~= seq![(out, 0usize)]);
            if !(self.a is Known && self.b is Known) {
                assert(a.cells@[out as int].value is Unknown);
                assert(!consistent(&cs, &a));
            }
        }
        let v = verify(&cs, &a, instance);
        proof {
            if v is Err {
                let fs = v->Err_0;
                if self.a is Known && self.b is Known {
                    assert(!public_holds(&a, a.publics@[0], instance@));
                    let j = choose|j: int| 0 <= j < fs@.len() && names_public(&a, a.publics@[0])(#[trigger] fs@[j]);
                    assert(names_slot(0)(fs@[j]));
                } else {
                    assert(a.cells@[out as int].value is Unknown);
                    let j = choose|j: int| 0 <= j < fs@.len() && names_cell(a.cells@[out as int])(#[trigger] fs@[j]);
                    assert(names_unknown()(fs@[j]));
                }
            }
        }
        Ok(v)
    }
}

} // verus!
