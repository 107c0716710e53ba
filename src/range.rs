//! Range checks by lookup: a tagged table that pairs each value below
//! `2^num_bits` with its bit length, and a chip that looks `(tag, value)`
//! pairs up in it.
use crate::circuit::{ColumnKind, 
    after, arg_values, cell_fe, cell_known, consistent, fits_rows, in_table, lemma_two_pow_le,
    lookup_use_holds, row_matches, satisfied, two_pow, verify, Assignment, ConstraintSystem,
    Failure, LookupUse, Table,
};
use crate::field::{Fe, Value};
use crate::merkle::CircuitError;
use vstd::prelude::*;

verus! {

/// Zero carries tag one; any other value carries its bit length `t`, that
/// is `2^(t-1) <= v < 2^t`.
pub open spec fn tag_fits(t: nat, v: nat) -> bool {
    if v == 0 {
        t == 1
    } else {
        t >= 1 && two_pow((t - 1) as nat) <= v < two_pow(t)
    }
}

/// The pair `(t, v)` is a row of the table for `n` bits.
pub open spec fn in_range_table(t: nat, v: nat, n: nat) -> bool {
    v < two_pow(n) && tag_fits(t, v)
}

/// A value has one tag.
pub proof fn lemma_tag_unique(t: nat, s: nat, v: nat)
    requires
        tag_fits(t, v),
        tag_fits(s, v),
    ensures
        t == s,
{
    if v > 0 {
        if t < s {
            lemma_two_pow_le(t, (s - 1) as nat);
        } else if s < t {
            lemma_two_pow_le(s, (t - 1) as nat);
        }
    }
}

/// Row `k` of the table is `[tag, k]` with the tag that fits `k`, for
/// every `k` below `2^n`.
pub open spec fn is_range_table(rows: Seq<Vec<Fe>>, n: nat) -> bool {
    &&& rows.len() == two_pow(n)
    &&& forall|k: int| 0 <= k < rows.len() ==> (#[trigger] rows[k])@.len() == 2 && rows[k]@[1].val() == k
        && tag_fits(rows[k]@[0].val(), k as nat)
}

/// The value of two to the sixty-third.
proof fn lemma_two_pow_63()
    ensures
        two_pow(63) == 0x8000_0000_0000_0000,
{
    reveal_with_fuel(two_pow, 64);
}

/// Builds the tagged table for `num_bits` bits: `(1, 0)`, then for each
/// bit length `b` from 1 to `num_bits` the values `2^(b-1) .. 2^b` tagged `b`.
pub fn range_table(num_bits: usize) -> (r: Vec<Vec<Fe>>)
    requires
        num_bits < 64,
    ensures
        is_range_table(r@, num_bits as nat),
{
    let mut rows: Vec<Vec<Fe>> = Vec::new();
    rows.push(vec![Fe::from_u64(1), Fe::from_u64(0)]);
    let mut b: u64 = 1;
    let mut lo: u64 = 1;
    proof {
        lemma_two_pow_63();
        lemma_two_pow_le(0, 62);
    }
    while b <= num_bits as u64
        invariant
            1 <= b <= num_bits + 1,
            num_bits < 64,
            lo == two_pow((b - 1) as nat),
            two_pow(63) == 0x8000_0000_0000_0000,
            rows@.len() == lo,
            forall|k: int| 0 <= k < rows@.len() ==> (#[trigger] rows@[k])@.len() == 2 && rows@[k]@[1].val() == k
                && tag_fits(rows@[k]@[0].val(), k as nat),
        decreases num_bits + 1 - b,
    {
        proof {
            lemma_two_pow_le((b - 1) as nat, 62);
            assert(two_pow(63) == 2 * two_pow(62));
        }
        let hi: u64 = lo * 2;
        assert(hi == two_pow(b as nat));
        let mut v: u64 = lo;
        while v < hi
            invariant
                lo <= v <= hi,
                lo == two_pow((b - 1) as nat),
                hi == two_pow(b as nat),
                b >= 1,
                rows@.len() == v,
                forall|k: int| 0 <= k < rows@.len() ==> (#[trigger] rows@[k])@.len() == 2 && rows@[k]@[1].val() == k
                    && tag_fits(rows@[k]@[0].val(), k as nat),
            decreases hi - v,
        {
            let row = vec![Fe::from_u64(b), Fe::from_u64(v)];
            rows.push(row);
            v = v + 1;
        }
        lo = hi;
        b = b + 1;
    }
    rows
}

/// The columns and lookup handle of the range-check chip.
#[derive(Clone, Copy, Debug)]
pub struct RangeCheckConfig {
    pub value: usize,
    pub bit: usize,
    pub q_lookup: usize,
    pub num_bits: usize,
}

impl RangeCheckConfig {
    pub open spec fn wf(&self, cs: &ConstraintSystem) -> bool {
        self.q_lookup < cs.lookups@.len() && cs.lookups@[self.q_lookup as int].width == 2
    }

    /// Registers the `(tag, value)` lookup over two advice columns.
    pub fn configure(cs: &mut ConstraintSystem, num_bits: usize) -> (r: RangeCheckConfig)
        ensures
            r.wf(final(cs)),
            r.num_bits == num_bits,
            r.value == old(cs).columns@.len(),
            r.bit == old(cs).columns@.len() + 1,
            final(cs).columns@ == old(cs).columns@.push(ColumnKind::Advice).push(ColumnKind::Advice),
            r.q_lookup == old(cs).lookups@.len(),
            final(cs).lookups@ == old(cs).lookups@.push(final(cs).lookups@[r.q_lookup as int]),
            final(cs).lookups@[r.q_lookup as int].name@ == "range check"@,
            final(cs).gates@ == old(cs).gates@,
    {
        let value = cs.allocate_column(ColumnKind::Advice);
        let bit = cs.allocate_column(ColumnKind::Advice);
        let q_lookup = cs.create_lookup(String::from_str("range check"), 2);
        RangeCheckConfig { value, bit, q_lookup, num_bits }
    }

    /// Fills the lookup's table.
    pub fn assign_table(&self, a: &mut Assignment)
        requires
            self.num_bits < 64,
        ensures
            final(a).tables@.len() == old(a).tables@.len() + 1,
            final(a).tables@.last().lookup == self.q_lookup,
            is_range_table(final(a).tables@.last().rows@, self.num_bits as nat),
            forall|i: int| 0 <= i < old(a).tables@.len() ==> final(a).tables@[i] == #[trigger] old(a).tables@[i],
            final(a).cells@ == old(a).cells@,
            final(a).gate_uses@ == old(a).gate_uses@,
            final(a).lookup_uses@ == old(a).lookup_uses@,
            final(a).copies@ == old(a).copies@,
            final(a).publics@ == old(a).publics@,
            final(a).next_row == old(a).next_row,
    {
        let rows = range_table(self.num_bits);
        a.load_table(self.q_lookup, rows);
    }

    /// Places each value beside its tag on a row of one region and enables
    /// the lookup there. The two lists have one length.
    pub fn assign(&self, a: &mut Assignment, values: &Vec<Value>, bits: &Vec<u8>)
        requires
            values@.len() == bits@.len(),
        ensures
            final(a).lookup_uses@.len() == old(a).lookup_uses@.len() + values@.len(),
            forall|i: int| 0 <= i < old(a).lookup_uses@.len() ==> final(a).lookup_uses@[i] == #[trigger] old(a).lookup_uses@[i],
            forall|i: int| 0 <= i < values@.len() ==> range_use(
                final(a),
                #[trigger] final(a).lookup_uses@[old(a).lookup_uses@.len() + i],
                self.q_lookup,
                bits@[i],
                values@[i],
            ),
            forall|j: int| 0 <= j < old(a).cells@.len() ==> final(a).cells@[j] == #[trigger] old(a).cells@[j],
            final(a).cells@.len() >= old(a).cells@.len(),
            forall|j: int| old(a).cells@.len() <= j < final(a).cells@.len() ==> (exists|i: int|
                0 <= i < values@.len() && (#[trigger] final(a).cells@[j]).value == values@[i]) || final(a).cells@[j].value is Known,
            final(a).tables@ == old(a).tables@,
            final(a).gate_uses@ == old(a).gate_uses@,
            final(a).copies@ == old(a).copies@,
            final(a).publics@ == old(a).publics@,
            final(a).next_row == after(old(a).next_row, values@.len() as int),
    {
        let base = a.region(values.len());
        let ghost r0 = a.next_row;
        let ghost c0 = a.cells@.len();
        let ghost l0 = a.lookup_uses@.len();
        let ghost start = *a;
        let mut i: usize = 0;
        while i < values.len()
            invariant
                i <= values@.len(),
                values@.len() == bits@.len(),
                a.lookup_uses@.len() == l0 + i,
                l0 == old(a).lookup_uses@.len(),
                c0 == old(a).cells@.len(),
                forall|k: int| 0 <= k < l0 ==> a.lookup_uses@[k] == #[trigger] old(a).lookup_uses@[k],
                forall|k: int| 0 <= k < i ==> range_use(a, #[trigger] a.lookup_uses@[l0 + k], self.q_lookup, bits@[k], values@[k]),
                forall|j: int| 0 <= j < c0 ==> a.cells@[j] == #[trigger] old(a).cells@[j],
                a.cells@.len() >= c0,
                forall|j: int| c0 <= j < a.cells@.len() ==> (exists|k: int|
                    0 <= k < values@.len() && (#[trigger] a.cells@[j]).value == values@[k]) || a.cells@[j].value is Known,
                a.tables@ == old(a).tables@,
                a.gate_uses@ == old(a).gate_uses@,
                a.copies@ == old(a).copies@,
                a.publics@ == old(a).publics@,
                a.next_row == r0,
            decreases values@.len() - i,
        {
            let row = base.saturating_add(i);
            let ghost before = *a;
            let v = a.assign(self.value, row, values[i]);
            let t = a.assign(self.bit, row, Value::Known(Fe::from_u64(bits[i] as u64)));
            a.enable_lookup(self.q_lookup, row, vec![t, v]);
            proof {
                let u = a.lookup_uses@[l0 + i];
                assert(u.args@ =~= seq![t, v]);
                assert forall|k: int| 0 <= k < i implies range_use(a, #[trigger] a.lookup_uses@[l0 + k], self.q_lookup, bits@[k], values@[k]) by {
                    assert(a.lookup_uses@[l0 + k] == before.lookup_uses@[l0 + k]);
                    assert(range_use(&before, before.lookup_uses@[l0 + k], self.q_lookup, bits@[k], values@[k]));
                    let w = before.lookup_uses@[l0 + k];
                    assert(a.cells@[w.args@[0] as int] == before.cells@[w.args@[0] as int]);
                    assert(a.cells@[w.args@[1] as int] == before.cells@[w.args@[1] as int]);
                }
                assert forall|j: int| c0 <= j < a.cells@.len() implies (exists|k: int|
                    0 <= k < values@.len() && (#[trigger] a.cells@[j]).value == values@[k]) || a.cells@[j].value is Known by {
                    if j < before.cells@.len() {
                        assert(a.cells@[j] == before.cells@[j]);
                    } else if j == v {
                        assert(a.cells@[j].value == values@[i as int]);
                    }
                }
            }
            i = i + 1;
        }
    }
}

/// A lookup use of handle `q` whose two cells hold the tag `bit` and the
/// witness value `value`.
pub open spec fn range_use(a: &Assignment, u: LookupUse, q: usize, bit: u8, value: Value) -> bool {
    &&& u.lookup == q
    &&& u.args@.len() == 2
    &&& u.args@[0] < a.cells@.len()
    &&& u.args@[1] < a.cells@.len()
    &&& a.cells@[u.args@[0] as int].value matches Value::Known(f) && f.val() == bit as nat
    &&& a.cells@[u.args@[1] as int].value == value
}

/// Looking a pair up in a range table succeeds exactly when the pair is in range.
pub proof fn lemma_range_table_lookup(t: &Table, n: nat, tag: Fe, value: Fe)
    requires
        is_range_table(t.rows@, n),
    ensures
        in_table(t, seq![tag, value]) == in_range_table(tag.val(), value.val(), n),
{
    let vals = seq![tag, value];
    if in_range_table(tag.val(), value.val(), n) {
        let k = value.val() as int;
        let row = t.rows@[k]@;
        lemma_tag_unique(row[0].val(), tag.val(), value.val());
        assert(row_matches(row, vals));
    }
    if in_table(t, vals) {
        let k = choose|r: int| 0 <= r < t.rows@.len() && row_matches(#[trigger] t.rows@[r]@, vals);
        let row = t.rows@[k]@;
        assert(row[0].val() == vals[0].val());
        assert(row[1].val() == vals[1].val());
    }
}

/// Every value of bit length `b`, tagged `b`, is in the table for `n >= b` bits.
pub proof fn lemma_tagged_values_pass(n: nat, b: nat, v: nat)
    requires
        1 <= b <= n,
        two_pow((b - 1) as nat) <= v < two_pow(b),
    ensures
        in_range_table(b, v, n),
{
    lemma_two_pow_le(b, n);
    lemma_two_pow_le(0, (b - 1) as nat);
}

/// No value at or above `2^n` is in the table for `n` bits, whatever its tag.
pub proof fn lemma_out_of_range_fails(n: nat, t: nat, v: nat)
    requires
        v >= two_pow(n),
    ensures
        !in_range_table(t, v, n),
{
}

/// The witness of the range-check circuit: values and the bit length each is
/// claimed to have, checked against the table for `num_bits` bits.
#[derive(Debug)]
pub struct RangeCheckCircuit {
    pub num_bits: usize,
    pub bits: Vec<u8>,
    pub values: Vec<Value>,
}

impl RangeCheckCircuit {
    /// Loads the table, places every `(tag, value)` pair in a grid of `2^k`
    /// rows and checks the assignment. Lists of two lengths, or a grid that
    /// holds neither the table nor the pairs, fail synthesis. The check
    /// passes exactly when every value is known and in the table under its tag.
    pub fn run(&self, k: u32) -> (r: Result<Result<(), Vec<Failure>>, CircuitError>)
        requires
            self.num_bits < 64,
        ensures
            r.is_ok() == (self.values@.len() == self.bits@.len() && after(0, self.values@.len() as int)
                <= two_pow(k as nat) && two_pow(self.num_bits as nat) <= two_pow(k as nat)),
            self.values@.len() != self.bits@.len() ==> r == Err::<Result<(), Vec<Failure>>, _>(
                CircuitError::ColumnLengths { values: self.values@.len() as usize, tags: self.bits@.len() as usize },
            ),
            self.values@.len() == self.bits@.len() && r is Err ==> r == Err::<Result<(), Vec<Failure>>, _>(
                CircuitError::NotEnoughRows { k },
            ),
            r matches Ok(v) ==> v.is_ok() == forall|i: int| 0 <= i < self.values@.len() ==> {
                &&& #[trigger] self.values@[i] is Known
                &&& in_range_table(self.bits@[i] as nat, self.values@[i]->Known_0.val(), self.num_bits as nat)
            },
    {
        if self.values.len() != self.bits.len() {
            return Err(CircuitError::ColumnLengths { values: self.values.len(), tags: self.bits.len() });
        }
        let mut cs = ConstraintSystem::new();
        let config = RangeCheckConfig::configure(&mut cs, self.num_bits);
        let mut a = Assignment::new();
        config.assign_table(&mut a);
        let ghost a1 = a;
        config.assign(&mut a, &self.values, &self.bits);
        if !fits_rows(&a, k) {
            return Err(CircuitError::NotEnoughRows { k });
        }
        let ghost n = self.num_bits as nat;
        proof {
            let t = a.tables@[0];
            assert(a.tables@.len() == 1);
            let all = forall|i: int| 0 <= i < self.values@.len() ==> {
                &&& #[trigger] self.values@[i] is Known
                &&& in_range_table(self.bits@[i] as nat, self.values@[i]->Known_0.val(), n)
            };
            assert forall|i: int| 0 <= i < self.values@.len() implies lookup_use_holds(&cs, &a, #[trigger] &a.lookup_uses@[i])
                == (self.values@[i] is Known && in_range_table(self.bits@[i] as nat, self.values@[i]->Known_0.val(), n)) by {
                let u = a.lookup_uses@[i];
                assert(a.lookup_uses@[0 + i] == u);
                assert(range_use(&a, u, config.q_lookup, self.bits@[i], self.values@[i]));
                if self.values@[i] is Known {
                    let vals = arg_values(&a, u.args@);
                    let tag = cell_fe(&a, u.args@[0]);
                    let value = cell_fe(&a, u.args@[1]);
                    assert(vals =~= seq![tag, value]);
                    lemma_range_table_lookup(&t, n, tag, value);
                    if in_range_table(self.bits@[i] as nat, self.values@[i]->Known_0.val(), n) {
                        assert(a.tables@[0].lookup == u.lookup);
                    }
                } else {
                    assert(!cell_known(&a, u.args@[1]));
                }
            }
            if all {
                assert forall|j: int| 0 <= j < a.cells@.len() implies (#[trigger] a.cells@[j]).value is Known by {
                    if exists|k: int| 0 <= k < self.values@.len() && a.cells@[j].value == self.values@[k] {
                        let k = choose|k: int| 0 <= k < self.values@.len() && a.cells@[j].value == self.values@[k];
                        assert(self.values@[k] is Known);
                    }
                }
                assert forall|i: int| 0 <= i < a.lookup_uses@.len() implies lookup_use_holds(&cs, &a, #[trigger] &a.lookup_uses@[i]) by {
                    assert(self.values@[i] is Known);
                }
                assert(consistent(&cs, &a));
                assert(satisfied(&cs, &a, Seq::<Fe>::empty()));
            }
            if satisfied(&cs, &a, Seq::<Fe>::empty()) {
                assert forall|i: int| 0 <= i < self.values@.len() implies {
                    &&& #[trigger] self.values@[i] is Known
                    &&& in_range_table(self.bits@[i] as nat, self.values@[i]->Known_0.val(), n)
                } by {
                    assert(lookup_use_holds(&cs, &a, &a.lookup_uses@[i]));
                }
            }
        }
        let empty: Vec<Fe> = Vec::new();
        assert(empty@ =~= Seq::<Fe>::empty());
        Ok(verify(&cs, &a, &empty))
    }
}

} // verus!
