//! Merkle-path verification: off-circuit root computation, and the chip that
//! proves the same computation step by step with an arithmetic swap.
use crate::circuit::{vals, shape, Shape, args_known, gate_use_holds, has_failing_gate, 
    after, arg_values, cell_fe, cell_known, consistent, eval, extends, has_unknown,
    lemma_consistent_extend, lemma_unknown_kept, Assignment, ConstraintSystem, Expr,
};
use crate::field::{oadd, omul, osub, val_of, modulus, reduce, Fe, Value};
use crate::hash::{hash_vals, hash_shape, hash2, hash_values, lemma_product_pair, HashChip, HashConfig};
use vstd::prelude::*;

verus! {

/// A shape error, found before any cell is assigned.
#[derive(Clone, Copy, Debug, PartialEq, Eq, Structural)]
pub enum CircuitError {
    /// The sibling list and the direction-bit list differ in length.
    LengthMismatch { elements: usize, indices: usize },
    /// Two witness columns that are read row by row differ in length.
    ColumnLengths { values: usize, tags: usize },
    /// A column read one row below another has `found` rows, not more than
    /// the other's `rows`.
    ShortColumn { rows: usize, found: usize },
    /// A grid of `2^k` rows cannot hold every region and table.
    NotEnoughRows { k: u32 },
}

/// One step up the tree: a zero bit puts the running node on the left.
pub open spec fn step(node: nat, sibling: nat, bit: nat) -> nat {
    if bit == 0 {
        hash2(node, sibling)
    } else {
        hash2(sibling, node)
    }
}

/// The root reached from `leaf` through the siblings and bits, bottom first.
pub open spec fn merkle_root(leaf: nat, siblings: Seq<Fe>, bits: Seq<Fe>) -> nat
    decreases siblings.len(),
{
    if siblings.len() == 0 || bits.len() == 0 {
        leaf
    } else {
        step(
            merkle_root(leaf, siblings.drop_last(), bits.drop_last()),
            siblings.last().val(),
            bits.last().val(),
        )
    }
}

/// Computes the root off-circuit by repeated swap-then-hash. The two lists
/// must have the same length.
pub fn compute_root(leaf: Fe, path_elements: &Vec<Fe>, path_indices: &Vec<Fe>) -> (r: Result<Fe, CircuitError>)
    ensures
        r.is_ok() == (path_elements@.len() == path_indices@.len()),
        r matches Ok(root) ==> root.val() == merkle_root(leaf.val(), path_elements@, path_indices@),
        r matches Err(e) ==> e == (CircuitError::LengthMismatch {
            elements: path_elements@.len() as usize,
            indices: path_indices@.len() as usize,
        }),
{
    if path_elements.len() != path_indices.len() {
        return Err(CircuitError::LengthMismatch { elements: path_elements.len(), indices: path_indices.len() });
    }
    let zero = Fe::from_u64(0);
    let mut node = leaf;
    let mut i: usize = 0;
    while i < path_elements.len()
        invariant
            i <= path_elements@.len(),
            path_elements@.len() == path_indices@.len(),
            zero.val() == 0,
            node.val() == merkle_root(leaf.val(), path_elements@.take(i as int), path_indices@.take(i as int)),
        decreases path_elements@.len() - i,
    {
        let sibling = path_elements[i];
        let (left, right) = if path_indices[i].equals(&zero) {
            (node, sibling)
        } else {
            (sibling, node)
        };
        let pair = vec![left, right];
        assert(pair@ =~= seq![left, right]);
        proof {
            lemma_product_pair(left, right);
        }
        node = hash_values(&pair);
        proof {
            assert(path_elements@.take(i + 1).drop_last() =~= path_elements@.take(i as int));
            assert(path_indices@.take(i + 1).drop_last() =~= path_indices@.take(i as int));
        }
        i = i + 1;
    }
    assert(path_elements@.take(i as int) =~= path_elements@);
    assert(path_indices@.take(i as int) =~= path_indices@);
    Ok(node)
}

/// Arithmetic selection picks the node for a zero bit and the sibling for a one bit.
pub proof fn lemma_select(node: int, sibling: int, bit: int)
    requires
        0 <= node < modulus(),
        0 <= sibling < modulus(),
        bit == 0 || bit == 1,
    ensures
        reduce(node + reduce(bit * reduce(sibling - node))) == if bit == 0 {
            node
        } else {
            sibling
        } as nat,
        reduce(reduce(bit * bit) - bit) == 0,
{
    let p = modulus() as int;
    vstd::arithmetic::div_mod::lemma_small_mod(node as nat, modulus());
    vstd::arithmetic::div_mod::lemma_small_mod(sibling as nat, modulus());
    let d = reduce(sibling - node);
    assert(d < modulus());
    vstd::arithmetic::div_mod::lemma_small_mod(d, modulus());
    if bit == 1 {
        assert(reduce(bit * d) == d);
        vstd::arithmetic::div_mod::lemma_add_mod_noop(node, sibling - node, p);
        assert(reduce(node + d) == reduce(sibling));
    } else {
        assert(reduce(bit * d) == 0);
    }
}

/// The field value `b` is a root of `b * b - b`.
pub open spec fn boolean(b: nat) -> bool {
    reduce(reduce(b as int * b) - b) == 0
}

/// Every direction bit is a root of `b * b - b`.
pub open spec fn bits_boolean(bits: Seq<Fe>) -> bool {
    forall|i: int| 0 <= i < bits.len() ==> boolean(#[trigger] bits[i].val())
}

/// One level as the circuit computes it: arithmetic selection, then the hash.
pub open spec fn select_step(node: nat, sibling: nat, bit: nat) -> nat {
    hash2(
        reduce(node as int + reduce(bit as int * reduce(sibling - node))),
        reduce(sibling as int + reduce(bit as int * reduce(node - sibling))),
    )
}

/// The root the circuit reaches from `leaf` by arithmetic selection.
pub open spec fn circuit_root(leaf: nat, siblings: Seq<Fe>, bits: Seq<Fe>) -> nat
    decreases siblings.len(),
{
    if siblings.len() == 0 || bits.len() == 0 {
        leaf
    } else {
        select_step(
            circuit_root(leaf, siblings.drop_last(), bits.drop_last()),
            siblings.last().val(),
            bits.last().val(),
        )
    }
}

/// With every bit zero or one, arithmetic selection reaches the same root as
/// the branching definition.
pub proof fn lemma_circuit_root_matches(leaf: nat, siblings: Seq<Fe>, bits: Seq<Fe>)
    requires
        leaf < modulus(),
        siblings.len() == bits.len(),
        forall|i: int| 0 <= i < bits.len() ==> (#[trigger] bits[i]).val() <= 1,
    ensures
        circuit_root(leaf, siblings, bits) == merkle_root(leaf, siblings, bits),
        merkle_root(leaf, siblings, bits) < modulus(),
    decreases siblings.len(),
{
    if siblings.len() > 0 {
        let (ss, bb) = (siblings.drop_last(), bits.drop_last());
        assert forall|i: int| 0 <= i < bb.len() implies (#[trigger] bb[i]).val() <= 1 by {
            assert(bb[i] == bits[i]);
        }
        lemma_circuit_root_matches(leaf, ss, bb);
        let node = merkle_root(leaf, ss, bb);
        let s = siblings.last();
        let b = bits.last();
        s.lemma_below_modulus();
        assert(b.val() <= 1);
        lemma_select(node as int, s.val() as int, b.val() as int);
        lemma_select(s.val() as int, node as int, b.val() as int);
    }
}

/// The swap gate over `[node, sibling, bit, left, right]`: `bit` is boolean,
/// `left = node + bit * (sibling - node)` and `right = sibling + bit * (node - sibling)`.
pub open spec fn swap_polys() -> Seq<Expr> {
    seq![
        Expr::Diff(
            Box::new(Expr::Product(Box::new(Expr::Arg(2)), Box::new(Expr::Arg(2)))),
            Box::new(Expr::Arg(2)),
        ),
        Expr::Diff(
            Box::new(Expr::Arg(3)),
            Box::new(Expr::Sum(
                Box::new(Expr::Arg(0)),
                Box::new(Expr::Product(
                    Box::new(Expr::Arg(2)),
                    Box::new(Expr::Diff(Box::new(Expr::Arg(1)), Box::new(Expr::Arg(0)))),
                )),
            )),
        ),
        Expr::Diff(
            Box::new(Expr::Arg(4)),
            Box::new(Expr::Sum(
                Box::new(Expr::Arg(1)),
                Box::new(Expr::Product(
                    Box::new(Expr::Arg(2)),
                    Box::new(Expr::Diff(Box::new(Expr::Arg(0)), Box::new(Expr::Arg(1)))),
                )),
            )),
        ),
    ]
}

/// The columns and gates of the Merkle chip: its own swap gate and the hash chip's gate.
#[derive(Clone, Copy, Debug)]
pub struct MerkleConfig {
    pub advice: [usize; 3],
    pub s_swap: usize,
    pub hash: HashConfig,
}

impl MerkleConfig {
    pub open spec fn wf(&self, cs: &ConstraintSystem) -> bool {
        &&& self.s_swap < cs.gates@.len()
        &&& cs.gates@[self.s_swap as int].width == 5
        &&& cs.gates@[self.s_swap as int].polys@ == swap_polys()
        &&& self.hash.wf(cs)
    }
}

/// Every value known, and every direction bit zero or one.
pub open spec fn valid_path(elements: Seq<Value>, indices: Seq<Value>) -> bool {
    &&& elements.len() == indices.len()
    &&& forall|i: int| 0 <= i < elements.len() ==> (#[trigger] elements[i]) is Known
    &&& forall|i: int| 0 <= i < indices.len() ==> (#[trigger] indices[i]) is Known
    &&& forall|i: int| 0 <= i < indices.len() ==> (#[trigger] indices[i])->Known_0.val() <= 1
}

/// Every value of both lists is known.
pub open spec fn all_known(elements: Seq<Value>, indices: Seq<Value>) -> bool {
    &&& forall|i: int| 0 <= i < elements.len() ==> (#[trigger] elements[i]) is Known
    &&& forall|i: int| 0 <= i < indices.len() ==> (#[trigger] indices[i]) is Known
}

/// The elements of a list of known values.
pub open spec fn knowns(s: Seq<Value>) -> Seq<Fe> {
    Seq::new(s.len(), |i: int| s[i]->Known_0)
}

/// What one level declares: a region of two rows holding a copy of the
/// running node, the sibling and the bit, then the swapped pair, all five
/// read by the swap gate; then the hash of the pair.
pub open spec fn step_shape(s: Shape, cfg: MerkleConfig, node: usize) -> Shape {
    let base = s.next_row;
    let next = after(base, 1);
    let l = s.positions.len();
    let swapped = s.region(2).copy(node, cfg.advice@[0], base).cell(cfg.advice@[1], base).cell(
        cfg.advice@[2],
        base,
    ).cell(cfg.advice@[0], next).cell(cfg.advice@[1], next).gate(
        cfg.s_swap,
        base,
        seq![l as usize, (l + 1) as usize, (l + 2) as usize, (l + 3) as usize, (l + 4) as usize],
    );
    hash_shape(swapped, cfg.hash, (l + 3) as usize, (l + 4) as usize)
}

/// The values one level appends, for a sibling `s` and a bit `b`: the
/// node, `s`, `b`, the swapped pair, then the hash chip's values.
pub open spec fn step_vals(v: Seq<Option<nat>>, node: usize, s: Option<nat>, b: Option<nat>) -> Seq<Option<nat>> {
    let n = v[node as int];
    let l = v.len();
    let w = v.push(n).push(s).push(b).push(oadd(n, omul(b, osub(s, n)))).push(oadd(s, omul(b, osub(n, s))));
    hash_vals(w, (l + 3) as usize, (l + 4) as usize)
}

/// The values `n` levels append from the cell `leaf`.
pub open spec fn path_vals(
    v: Seq<Option<nat>>,
    siblings: Seq<Option<nat>>,
    bits: Seq<Option<nat>>,
    leaf: usize,
    n: nat,
) -> Seq<Option<nat>>
    decreases n,
{
    if n == 0 {
        v
    } else {
        let before = path_vals(v, siblings, bits, leaf, (n - 1) as nat);
        let node = if n == 1 {
            leaf
        } else {
            (before.len() - 1) as usize
        };
        step_vals(before, node, siblings[n - 1], bits[n - 1])
    }
}

/// The optional values of a list of witness values.
pub open spec fn opt_vals(s: Seq<Value>) -> Seq<Option<nat>> {
    s.map_values(|x: Value| val_of(x))
}

/// What `n` levels declare from the cell `leaf`; each level starts from the
/// last cell of the one before.
pub open spec fn path_shape(s: Shape, cfg: MerkleConfig, leaf: usize, n: nat) -> Shape
    decreases n,
{
    if n == 0 {
        s
    } else {
        let before = path_shape(s, cfg, leaf, (n - 1) as nat);
        let node = if n == 1 {
            leaf
        } else {
            (before.positions.len() - 1) as usize
        };
        step_shape(before, cfg, node)
    }
}

/// The running node after `n` levels.
pub open spec fn path_node(s: Shape, cfg: MerkleConfig, leaf: usize, n: nat) -> usize {
    if n == 0 {
        leaf
    } else {
        (path_shape(s, cfg, leaf, n).positions.len() - 1) as usize
    }
}

/// Proves a Merkle path one region per level, threading the running node
/// between levels by copy constraints.
pub struct MerkleChip {
    pub config: MerkleConfig,
}

impl MerkleChip {
    pub fn construct(config: MerkleConfig) -> (r: MerkleChip)
        ensures
            r.config == config,
    {
        MerkleChip { config }
    }

    /// Registers the swap gate and the hash chip over shared advice columns.
    pub fn configure(cs: &mut ConstraintSystem, advice: [usize; 3], instance: usize) -> (r: MerkleConfig)
        ensures
            r.wf(final(cs)),
            r.advice == advice,
            r.hash.advice == advice,
            r.hash.instance == instance,
            r.s_swap == old(cs).gates@.len(),
            r.hash.s_hash == old(cs).gates@.len() + 1,
            final(cs).gates@[r.s_swap as int].name@ == "swap"@,
            final(cs).gates@[r.hash.s_hash as int].name@ == "hash"@,
            final(cs).columns@ == old(cs).columns@,
            final(cs).lookups@ == old(cs).lookups@,
            final(cs).gates@.len() == old(cs).gates@.len() + 2,
            forall|i: int| 0 <= i < old(cs).gates@.len() ==> final(cs).gates@[i] == #[trigger] old(cs).gates@[i],
    {
        let boolean = Expr::Diff(
            Box::new(Expr::Product(Box::new(Expr::Arg(2)), Box::new(Expr::Arg(2)))),
            Box::new(Expr::Arg(2)),
        );
        let left = Expr::Diff(
            Box::new(Expr::Arg(3)),
            Box::new(Expr::Sum(
                Box::new(Expr::Arg(0)),
                Box::new(Expr::Product(
                    Box::new(Expr::Arg(2)),
                    Box::new(Expr::Diff(Box::new(Expr::Arg(1)), Box::new(Expr::Arg(0)))),
                )),
            )),
        );
        let right = Expr::Diff(
            Box::new(Expr::Arg(4)),
            Box::new(Expr::Sum(
                Box::new(Expr::Arg(1)),
                Box::new(Expr::Product(
                    Box::new(Expr::Arg(2)),
                    Box::new(Expr::Diff(Box::new(Expr::Arg(0)), Box::new(Expr::Arg(1)))),
                )),
            )),
        );
        let ghost g0 = old(cs).gates@;
        let s_swap = cs.create_gate(String::from_str("swap"), 5, vec![boolean, left, right]);
        proof {
            assert(cs.gates@[s_swap as int].polys@ =~= swap_polys());
        }
        let ghost g1 = cs.gates@;
        let hash = HashChip::configure(cs, advice, instance);
        assert forall|i: int| 0 <= i < g0.len() implies cs.gates@[i] == #[trigger] g0[i] by {
            assert(g1[i] == g0[i]);
        }
        MerkleConfig { advice, s_swap, hash }
    }

    /// One level: places the running node, the sibling and the bit, the
    /// swapped pair, and their hash. Returns the cell of the next node.
    pub fn step(&self, cs: &ConstraintSystem, a: &mut Assignment, node: usize, sibling: Value, bit: Value) -> (out: usize)
        requires
            node < old(a).cells@.len(),
        ensures
            extends(old(a), final(a)),
            final(a).tables@ == old(a).tables@,
            out < final(a).cells@.len(),
            final(a).publics@ == old(a).publics@,
            has_unknown(old(a)) || sibling is Unknown || bit is Unknown ==> has_unknown(final(a)),
            has_failing_gate(cs, old(a)) ==> has_failing_gate(cs, final(a)),
            final(a).next_row == after(old(a).next_row, 3),
            shape(final(a)) == step_shape(shape(old(a)), self.config, node),
            vals(final(a)) == step_vals(vals(old(a)), node, val_of(sibling), val_of(bit)),
            out == old(a).cells@.len() + 7,
            self.config.wf(cs) && cell_known(old(a), node) && sibling is Known && bit is Known ==> {
                &&& cell_known(final(a), out)
                &&& cell_fe(final(a), out).val() == select_step(
                    cell_fe(old(a), node).val(),
                    sibling->Known_0.val(),
                    bit->Known_0.val(),
                )
                &&& !boolean(bit->Known_0.val()) ==> has_failing_gate(cs, final(a))
                &&& consistent(cs, old(a)) && boolean(bit->Known_0.val()) ==> consistent(cs, final(a))
            },
    {
        let ghost a0 = *old(a);
        let base = a.region(2);
        let next = base.saturating_add(1);
        let n = a.copy_advice(node, self.config.advice[0], base);
        let s = a.assign(self.config.advice[1], base, sibling);
        let b = a.assign(self.config.advice[2], base, bit);
        let nv = a.cells[n].value;
        let lv = nv.add(&bit.mul(&sibling.sub(&nv)));
        let rv = sibling.add(&bit.mul(&nv.sub(&sibling)));
        let l = a.assign(self.config.advice[0], next, lv);
        let r = a.assign(self.config.advice[1], next, rv);
        let args = vec![n, s, b, l, r];
        assert(args@ =~= seq![n, s, b, l, r]);
        a.enable_gate(self.config.s_swap, base, args);
        let ghost a1 = *a;
        proof {
            assert(extends(&a0, &a1));
            if has_failing_gate(cs, &a0) {
                crate::circuit::lemma_failing_gate_kept(cs, &a0, &a1);
            }
            if self.config.wf(cs) && cell_known(&a0, node) && sibling is Known && bit is Known {
                let u = &a1.gate_uses@[a0.gate_uses@.len() as int];
                assert(u.args@ =~= seq![n, s, b, l, r]);
                let vals = arg_values(&a1, u.args@);
                assert(vals =~= seq![cell_fe(&a1, n), cell_fe(&a1, s), cell_fe(&a1, b), cell_fe(&a1, l), cell_fe(&a1, r)]);
                let polys = swap_polys();
                let bf = bit->Known_0;
                assert(vals[2] == bf);
                reveal_with_fuel(eval, 5);
                assert(eval(polys[0], vals) == reduce(reduce(bf.val() as int * bf.val()) - bf.val()));
                assert(eval(polys[1], vals) == 0);
                assert(eval(polys[2], vals) == 0);
                assert(cs.gates@[self.config.s_swap as int].polys@ == polys);
                assert(args_known(&a1, u.args@));
                if !boolean(bf.val()) {
                    assert(!gate_use_holds(cs, &a1, u));
                    assert(has_failing_gate(cs, &a1));
                }
                if consistent(cs, &a0) && boolean(bf.val()) {
                    lemma_consistent_extend(cs, &a0, &a1);
                }
            }
        }
        let chip = HashChip::construct(self.config.hash);
        let out = chip.hash(cs, a, l, r);
        proof {
            if sibling is Unknown {
                assert(a1.cells@[s as int].value is Unknown);
            }
            if bit is Unknown {
                assert(a1.cells@[b as int].value is Unknown);
            }
            if has_unknown(&a0) || sibling is Unknown || bit is Unknown {
                if has_unknown(&a0) {
                    lemma_unknown_kept(&a0, &a1);
                }
                lemma_unknown_kept(&a1, a);
            }
            if has_failing_gate(cs, &a1) {
                crate::circuit::lemma_failing_gate_kept(cs, &a1, a);
            }
            if self.config.wf(cs) && cell_known(&a0, node) && sibling is Known && bit is Known {
                assert(cell_known(&a1, l));
                assert(cell_known(&a1, r));
            }
        }
        out
    }

    /// Proves the path from the cell `leaf` through the siblings and bits,
    /// one level at a time, and returns the cell of the root. A length
    /// mismatch is refused before any cell is assigned.
    pub fn prove_tree_root(
        &self,
        cs: &ConstraintSystem,
        a: &mut Assignment,
        leaf: usize,
        path_elements: &Vec<Value>,
        path_indices: &Vec<Value>,
    ) -> (r: Result<usize, CircuitError>)
        requires
            leaf < old(a).cells@.len(),
        ensures
            extends(old(a), final(a)),
            final(a).tables@ == old(a).tables@,
            final(a).publics@ == old(a).publics@,
            r.is_ok() == (path_elements@.len() == path_indices@.len()),
            r is Err ==> final(a).cells@ == old(a).cells@,
            r matches Err(e) ==> e == (CircuitError::LengthMismatch {
                elements: path_elements@.len() as usize,
                indices: path_indices@.len() as usize,
            }),
            r matches Ok(root) ==> root < final(a).cells@.len(),
            has_unknown(old(a)) ==> has_unknown(final(a)),
            r is Ok ==> final(a).next_row == after(old(a).next_row, 3 * path_elements@.len() as int),
            r is Err ==> final(a).next_row == old(a).next_row,
            r is Err ==> shape(final(a)) == shape(old(a)),
            r matches Ok(root) ==> vals(final(a)) == path_vals(
                vals(old(a)),
                opt_vals(path_elements@),
                opt_vals(path_indices@),
                leaf,
                path_elements@.len(),
            ),
            r matches Ok(root) ==> shape(final(a)) == path_shape(shape(old(a)), self.config, leaf, path_elements@.len())
                && root == path_node(shape(old(a)), self.config, leaf, path_elements@.len()),
            r is Ok && !all_known(path_elements@, path_indices@) ==> has_unknown(final(a)),
            has_failing_gate(cs, old(a)) ==> has_failing_gate(cs, final(a)),
            r matches Ok(root) ==> (self.config.wf(cs) && cell_known(old(a), leaf) && all_known(
                path_elements@,
                path_indices@,
            ) ==> {
                &&& cell_known(final(a), root)
                &&& cell_fe(final(a), root).val() == circuit_root(
                    cell_fe(old(a), leaf).val(),
                    knowns(path_elements@),
                    knowns(path_indices@),
                )
                &&& !bits_boolean(knowns(path_indices@)) ==> has_failing_gate(cs, final(a))
                &&& consistent(cs, old(a)) && bits_boolean(knowns(path_indices@)) ==> consistent(cs, final(a))
            }),
    {
        if path_elements.len() != path_indices.len() {
            return Err(CircuitError::LengthMismatch { elements: path_elements.len(), indices: path_indices.len() });
        }
        let ghost a0 = *old(a);
        let ghost pre = self.config.wf(cs) && cell_known(&a0, leaf) && all_known(path_elements@, path_indices@);
        let ghost leaf_val = cell_fe(&a0, leaf).val();
        let ghost es = knowns(path_elements@);
        let ghost bs = knowns(path_indices@);
        let mut node = leaf;
        let mut i: usize = 0;
        while i < path_elements.len()
            invariant
                i <= path_elements@.len(),
                path_elements@.len() == path_indices@.len(),
                extends(&a0, a),
                a.publics@ == a0.publics@,
                a.tables@ == a0.tables@,
                a.next_row == after(a0.next_row, 3 * i),
                shape(a) == path_shape(shape(&a0), self.config, leaf, i as nat),
                vals(a) == path_vals(vals(&a0), opt_vals(path_elements@), opt_vals(path_indices@), leaf, i as nat),
                shape(a).positions.len() == vals(a).len(),
                node == path_node(shape(&a0), self.config, leaf, i as nat),
                node < a.cells@.len(),
                es == knowns(path_elements@),
                bs == knowns(path_indices@),
                pre == (self.config.wf(cs) && cell_known(&a0, leaf) && all_known(path_elements@, path_indices@)),
                has_failing_gate(cs, &a0) ==> has_failing_gate(cs, a),
                leaf_val == cell_fe(&a0, leaf).val(),
                has_unknown(&a0) || !all_known(path_elements@.take(i as int), path_indices@.take(i as int))
                    ==> has_unknown(a),
                pre ==> cell_known(a, node) && cell_fe(a, node).val() == circuit_root(
                    leaf_val,
                    es.take(i as int),
                    bs.take(i as int),
                ),
                pre && !bits_boolean(bs.take(i as int)) ==> has_failing_gate(cs, a),
                pre && consistent(cs, &a0) && bits_boolean(bs.take(i as int)) ==> consistent(cs, a),
            decreases path_elements@.len() - i,
        {
            let ghost before = *a;
            node = self.step(cs, a, node, path_elements[i], path_indices[i]);
            proof {
                assert(shape(a) == path_shape(shape(&a0), self.config, leaf, (i + 1) as nat));
                assert(vals(a) == path_vals(vals(&a0), opt_vals(path_elements@), opt_vals(path_indices@), leaf, (i + 1) as nat));
                assert(path_elements@.take(i + 1).drop_last() =~= path_elements@.take(i as int));
                assert(path_indices@.take(i + 1).drop_last() =~= path_indices@.take(i as int));
                if !all_known(path_elements@.take(i + 1), path_indices@.take(i + 1)) {
                    if all_known(path_elements@.take(i as int), path_indices@.take(i as int)) {
                        assert(path_elements@[i as int] is Unknown || path_indices@[i as int] is Unknown);
                    }
                }
                crate::circuit::lemma_extends_trans(&a0, &before, a);
                assert(es.take(i + 1).drop_last() =~= es.take(i as int));
                assert(bs.take(i + 1).drop_last() =~= bs.take(i as int));
                if pre {
                    assert(path_elements@[i as int] is Known);
                    assert(path_indices@[i as int] is Known);
                    let prev = bs.take(i as int);
                    let cur = bs.take(i + 1);
                    assert(cur[i as int] == bs[i as int]);
                    if bits_boolean(cur) {
                        assert forall|m: int| 0 <= m < prev.len() implies boolean(#[trigger] prev[m].val()) by {
                            assert(prev[m] == cur[m]);
                        }
                        assert(boolean(cur[i as int].val()));
                    } else {
                        let m = choose|m: int| 0 <= m < cur.len() && !boolean(#[trigger] cur[m].val());
                        if m < i {
                            assert(prev[m] == cur[m]);
                            assert(!bits_boolean(prev));
                        }
                    }
                }
            }
            i = i + 1;
        }
        assert(es.take(i as int) =~= es);
        assert(bs.take(i as int) =~= bs);
        assert(path_elements@.take(i as int) =~= path_elements@);
        assert(path_indices@.take(i as int) =~= path_indices@);
        Ok(node)
    }
}

} // verus!
