//! The placeholder hash: the field product of its inputs. It is not a
//! cryptographic hash; the chip keeps the shape `hash(left, right) -> cell`
//! that a real one would have.
use crate::circuit::{vals, shape, Shape, 
    after, arg_values, cell_fe, cell_known, consistent, eval, extends, lemma_consistent_extend,
    Assignment, ConstraintSystem, Expr,
};
use crate::field::{omul, lift, reduce, Fe};
use vstd::prelude::*;

verus! {

/// The product of a sequence of elements, folded from the left starting at one.
pub open spec fn product(s: Seq<Fe>) -> nat
    decreases s.len(),
{
    if s.len() == 0 {
        1
    } else {
        reduce(product(s.drop_last()) as int * s.last().val())
    }
}

/// The hash of two elements.
pub open spec fn hash2(l: nat, r: nat) -> nat {
    reduce(l as int * r)
}

/// Hashes a list of elements: their product.
pub fn hash_values(values: &Vec<Fe>) -> (r: Fe)
    ensures
        r.val() == product(values@),
{
    let mut acc = Fe::from_u64(1);
    let mut i: usize = 0;
    while i < values.len()
        invariant
            i <= values@.len(),
            acc.val() == product(values@.take(i as int)),
        decreases values@.len() - i,
    {
        acc = acc.mul(&values[i]);
        assert(values@.take(i + 1).drop_last() =~= values@.take(i as int));
        i = i + 1;
    }
    assert(values@.take(i as int) =~= values@);
    acc
}

/// Hashes one element: the product of a one-element list, which is the
/// element itself.
pub fn hash_value(value: Fe) -> (r: Fe)
    ensures
        r.val() == product(seq![value]),
        r.val() == value.val(),
{
    let v = vec![value];
    assert(v@ =~= seq![value]);
    let r = hash_values(&v);
    proof {
        assert(seq![value].drop_last() =~= Seq::<Fe>::empty());
        assert(product(Seq::<Fe>::empty()) == 1);
        value.lemma_below_modulus();
        vstd::arithmetic::div_mod::lemma_small_mod(value.val(), crate::field::modulus());
        assert(product(seq![value]) == reduce(1int * value.val()));
    }
    r
}

/// The product of a pair is the hash of the two.
pub proof fn lemma_product_pair(a: Fe, b: Fe)
    ensures
        product(seq![a, b]) == hash2(a.val(), b.val()),
{
    assert(seq![a, b].drop_last() =~= seq![a]);
    assert(seq![a].drop_last() =~= Seq::<Fe>::empty());
    assert(product(Seq::<Fe>::empty()) == 1);
    a.lemma_below_modulus();
    vstd::arithmetic::div_mod::lemma_small_mod(a.val(), crate::field::modulus());
    assert(product(seq![a]) == reduce(1int * a.val()));
    assert(product(seq![a]) == a.val());
    assert(seq![a, b].last() == b);
}

/// The hash gate's identity: `lhs * rhs - out`.
pub open spec fn hash_poly() -> Expr {
    Expr::Diff(
        Box::new(Expr::Product(Box::new(Expr::Arg(0)), Box::new(Expr::Arg(1)))),
        Box::new(Expr::Arg(2)),
    )
}

/// The columns and gate of the hash chip.
#[derive(Clone, Copy, Debug)]
pub struct HashConfig {
    pub advice: [usize; 3],
    pub instance: usize,
    pub s_hash: usize,
}

impl HashConfig {
    /// Its handle names the hash identity in `cs`.
    pub open spec fn wf(&self, cs: &ConstraintSystem) -> bool {
        &&& self.s_hash < cs.gates@.len()
        &&& cs.gates@[self.s_hash as int].width == 3
        &&& cs.gates@[self.s_hash as int].polys@ == seq![hash_poly()]
    }
}

/// What the hash chip declares: one region of one row holding copies of
/// `left` and `right` and a fresh output cell, the three read by the hash gate.
pub open spec fn hash_shape(s: Shape, cfg: HashConfig, left: usize, right: usize) -> Shape {
    let base = s.next_row;
    let l = s.positions.len();
    s.region(1).copy(left, cfg.advice@[0], base).copy(right, cfg.advice@[1], base).cell(
        cfg.advice@[2],
        base,
    ).gate(cfg.s_hash, base, seq![l as usize, (l + 1) as usize, (l + 2) as usize])
}

/// The values the hash chip appends: copies of `left` and `right`, then
/// their product.
pub open spec fn hash_vals(v: Seq<Option<nat>>, left: usize, right: usize) -> Seq<Option<nat>> {
    v.push(v[left as int]).push(v[right as int]).push(omul(v[left as int], v[right as int]))
}

/// Two private values loaded side by side in a region of one row.
pub open spec fn load_pair_shape(s: Shape, advice: [usize; 3]) -> Shape {
    let base = s.next_row;
    s.region(1).cell(advice@[0], base).cell(advice@[1], base)
}

/// The hash chip: one region, one gate `lhs * rhs - out = 0`.
pub struct HashChip {
    pub config: HashConfig,
}

impl HashChip {
    pub fn construct(config: HashConfig) -> (r: HashChip)
        ensures
            r.config == config,
    {
        HashChip { config }
    }

    /// Registers the hash gate over three advice columns.
    pub fn configure(cs: &mut ConstraintSystem, advice: [usize; 3], instance: usize) -> (r: HashConfig)
        ensures
            r.wf(final(cs)),
            r.advice == advice,
            r.instance == instance,
            r.s_hash == old(cs).gates@.len(),
            final(cs).gates@[r.s_hash as int].name@ == "hash"@,
            final(cs).columns@ == old(cs).columns@,
            final(cs).gates@.len() == old(cs).gates@.len() + 1,
            forall|i: int| 0 <= i < old(cs).gates@.len() ==> final(cs).gates@[i] == #[trigger] old(cs).gates@[i],
            final(cs).lookups@ == old(cs).lookups@,
    {
        let poly = Expr::Diff(
            Box::new(Expr::Product(Box::new(Expr::Arg(0)), Box::new(Expr::Arg(1)))),
            Box::new(Expr::Arg(2)),
        );
        let s_hash = cs.create_gate(String::from_str("hash"), 3, vec![poly]);
        proof {
            assert(final(cs).gates@[s_hash as int].polys@ =~= seq![hash_poly()]);
        }
        HashConfig { advice, instance, s_hash }
    }

    /// Places `left` and `right` beside their hash in one region, copying
    /// the two inputs in, and returns the cell of the hash.
    pub fn hash(&self, cs: &ConstraintSystem, a: &mut Assignment, left: usize, right: usize) -> (out: usize)
        requires
            left < old(a).cells@.len(),
            right < old(a).cells@.len(),
        ensures
            extends(old(a), final(a)),
            final(a).tables@ == old(a).tables@,
            out < final(a).cells@.len(),
            lift(
                old(a).cells@[left as int].value,
                old(a).cells@[right as int].value,
                final(a).cells@[out as int].value,
                |x: int, y: int| x * y,
            ),
            final(a).publics@ == old(a).publics@,
            final(a).next_row == after(old(a).next_row, 1),
            shape(final(a)) == hash_shape(shape(old(a)), self.config, left, right),
            vals(final(a)) == hash_vals(vals(old(a)), left, right),
            out == old(a).cells@.len() + 2,
            final(a).cells@[old(a).cells@.len() as int].value == old(a).cells@[left as int].value,
            final(a).cells@[old(a).cells@.len() as int + 1].value == old(a).cells@[right as int].value,
            self.config.wf(cs) && consistent(cs, old(a)) && cell_known(old(a), left)
                && cell_known(old(a), right) ==> consistent(cs, final(a)),
    {
        let ghost a0 = *old(a);
        let base = a.region(1);
        let l = a.copy_advice(left, self.config.advice[0], base);
        let r = a.copy_advice(right, self.config.advice[1], base);
        let v = a.cells[l].value.mul(&a.cells[r].value);
        let o = a.assign(self.config.advice[2], base, v);
        let args = vec![l, r, o];
        assert(args@ =~= seq![l, r, o]);
        a.enable_gate(self.config.s_hash, base, args);
        proof {
            let an = *a;
            assert(extends(&a0, &an));
            if self.config.wf(cs) && consistent(cs, &a0) && cell_known(&a0, left) && cell_known(&a0, right) {
                assert(a0.cells@[left as int].value is Known);
                let u = &an.gate_uses@[a0.gate_uses@.len() as int];
                assert(u.args@ =~= seq![l, r, o]);
                let vals = arg_values(&an, u.args@);
                assert(vals =~= seq![cell_fe(&an, l), cell_fe(&an, r), cell_fe(&an, o)]);
                reveal_with_fuel(eval, 3);
                assert(eval(hash_poly(), vals) == 0);
                lemma_consistent_extend(cs, &a0, &an);
            }
        }
        o
    }
}

} // verus!
