//! Membership of two offset columns in twin tables: column A's value on a
//! row and column B's value on the next row must together be a row `(i, i)`
//! of the tables, for `i` below the range.
use crate::circuit::{ColumnKind, 
    after, arg_values, cell_fe, cell_known, fits_rows, in_table, lookup_use_holds, row_matches,
    satisfied, two_pow, verify, Assignment, ConstraintSystem, Failure, Table,
};
use crate::field::{Fe, Value};
use crate::merkle::CircuitError;
use vstd::prelude::*;

verus! {

/// Row `k` of both tables holds `k`, for every `k` below `range`.
pub open spec fn is_twin_table(rows: Seq<Vec<Fe>>, range: nat) -> bool {
    &&& rows.len() == range
    &&& forall|k: int| 0 <= k < rows.len() ==> (#[trigger] rows[k])@.len() == 2 && rows[k]@[0].val() == k
        && rows[k]@[1].val() == k
}

/// Builds the twin tables `0 .. range`, one row per value.
pub fn twin_table(range: u64) -> (r: Vec<Vec<Fe>>)
    ensures
        is_twin_table(r@, range as nat),
{
    let mut rows: Vec<Vec<Fe>> = Vec::new();
    let mut i: u64 = 0;
    while i < range
        invariant
            i <= range,
            rows@.len() == i,
            forall|k: int| 0 <= k < rows@.len() ==> (#[trigger] rows@[k])@.len() == 2 && rows@[k]@[0].val() == k
                && rows@[k]@[1].val() == k,
        decreases range - i,
    {
        rows.push(vec![Fe::from_u64(i), Fe::from_u64(i)]);
        i = i + 1;
    }
    rows
}

/// A pair is found in the twin tables exactly when both are one value below the range.
pub proof fn lemma_twin_table_lookup(t: &Table, range: nat, x: Fe, y: Fe)
    requires
        is_twin_table(t.rows@, range),
    ensures
        in_table(t, seq![x, y]) == (x.val() < range && x.val() == y.val()),
{
    let vals = seq![x, y];
    if x.val() < range && x.val() == y.val() {
        assert(row_matches(t.rows@[x.val() as int]@, vals));
    }
    if in_table(t, vals) {
        let k = choose|r: int| 0 <= r < t.rows@.len() && row_matches(#[trigger] t.rows@[r]@, vals);
        assert(t.rows@[k]@[0].val() == vals[0].val());
        assert(t.rows@[k]@[1].val() == vals[1].val());
    }
}

/// The columns and lookup handle of the chip.
#[derive(Clone, Copy, Debug)]
pub struct RangeLookupConfig {
    pub advice_a: usize,
    pub advice_b: usize,
    pub q_lookup: usize,
    pub range: u64,
}

impl RangeLookupConfig {
    pub open spec fn wf(&self, cs: &ConstraintSystem) -> bool {
        self.q_lookup < cs.lookups@.len() && cs.lookups@[self.q_lookup as int].width == 2
    }
}

/// The dual-table range-lookup chip.
pub struct RangeLookupChip {
    pub config: RangeLookupConfig,
}

impl RangeLookupChip {
    pub fn construct(config: RangeLookupConfig) -> (r: RangeLookupChip)
        ensures
            r.config == config,
    {
        RangeLookupChip { config }
    }

    /// Registers the lookup of (A on this row, B on the next row).
    pub fn configure(cs: &mut ConstraintSystem, range: u64) -> (r: RangeLookupConfig)
        ensures
            r.wf(final(cs)),
            r.range == range,
            r.advice_a == old(cs).columns@.len(),
            r.advice_b == old(cs).columns@.len() + 1,
            final(cs).columns@ == old(cs).columns@.push(ColumnKind::Advice).push(ColumnKind::Advice),
            r.q_lookup == old(cs).lookups@.len(),
            final(cs).lookups@ == old(cs).lookups@.push(final(cs).lookups@[r.q_lookup as int]),
            final(cs).lookups@[r.q_lookup as int].name@ == "range lookup"@,
            final(cs).gates@ == old(cs).gates@,
    {
        let advice_a = cs.allocate_column(ColumnKind::Advice);
        let advice_b = cs.allocate_column(ColumnKind::Advice);
        let q_lookup = cs.create_lookup(String::from_str("range lookup"), 2);
        RangeLookupConfig { advice_a, advice_b, q_lookup, range }
    }

    /// Places column A and column B from row 0, enables the lookup on every
    /// row of A, and fills the tables.
    pub fn assign(&self, a: &mut Assignment, a_values: &Vec<Value>, b_values: &Vec<Value>)
        requires
            b_values@.len() > a_values@.len(),
            old(a).cells@.len() + a_values@.len() + b_values@.len() <= usize::MAX,
        ensures
            final(a).cells@.len() == old(a).cells@.len() + a_values@.len() + b_values@.len(),
            forall|j: int| 0 <= j < old(a).cells@.len() ==> final(a).cells@[j] == #[trigger] old(a).cells@[j],
            forall|r: int| 0 <= r < a_values@.len() ==> (#[trigger] final(a).cells@[old(a).cells@.len() + r]).value
                == a_values@[r],
            forall|r: int| 0 <= r < b_values@.len() ==> (#[trigger] final(a).cells@[old(a).cells@.len()
                + a_values@.len() + r]).value == b_values@[r],
            final(a).lookup_uses@.len() == old(a).lookup_uses@.len() + a_values@.len(),
            forall|i: int| 0 <= i < old(a).lookup_uses@.len() ==> final(a).lookup_uses@[i] == #[trigger] old(a).lookup_uses@[i],
            forall|r: int| 0 <= r < a_values@.len() ==> {
                let u = #[trigger] final(a).lookup_uses@[old(a).lookup_uses@.len() + r];
                &&& u.lookup == self.config.q_lookup
                &&& u.args@ == seq![
                    (old(a).cells@.len() + r) as usize,
                    (old(a).cells@.len() + a_values@.len() + r + 1) as usize,
                ]
            },
            final(a).tables@ == old(a).tables@.push(Table { lookup: self.config.q_lookup, rows: final(a).tables@.last().rows }),
            is_twin_table(final(a).tables@.last().rows@, self.config.range as nat),
            final(a).gate_uses@ == old(a).gate_uses@,
            final(a).copies@ == old(a).copies@,
            final(a).publics@ == old(a).publics@,
            final(a).next_row == after(old(a).next_row, b_values@.len() as int),
    {
        let ghost a0 = *old(a);
        let c0 = a.cells.len();
        let l0 = a.lookup_uses.len();
        let base = a.region(b_values.len());
        let ghost r0 = a.next_row;
        let mut r: usize = 0;
        while r < a_values.len()
            invariant
                r <= a_values@.len(),
                c0 == a0.cells@.len(),
                a.cells@.len() == c0 + r,
                forall|j: int| 0 <= j < c0 ==> a.cells@[j] == #[trigger] a0.cells@[j],
                forall|k: int| 0 <= k < r ==> (#[trigger] a.cells@[c0 + k]).value == a_values@[k],
                a.lookup_uses@ == a0.lookup_uses@,
                a.tables@ == a0.tables@,
                a.gate_uses@ == a0.gate_uses@,
                a.copies@ == a0.copies@,
                a.publics@ == a0.publics@,
                a.next_row == r0,
            decreases a_values@.len() - r,
        {
            a.assign(self.config.advice_a, base.saturating_add(r), a_values[r]);
            r = r + 1;
        }
        let cb = a.cells.len();
        let mut r: usize = 0;
        while r < b_values.len()
            invariant
                r <= b_values@.len(),
                c0 == a0.cells@.len(),
                cb == c0 + a_values@.len(),
                a.cells@.len() == cb + r,
                forall|j: int| 0 <= j < c0 ==> a.cells@[j] == #[trigger] a0.cells@[j],
                forall|k: int| 0 <= k < a_values@.len() ==> (#[trigger] a.cells@[c0 + k]).value == a_values@[k],
                forall|k: int| 0 <= k < r ==> (#[trigger] a.cells@[cb + k]).value == b_values@[k],
                a.lookup_uses@ == a0.lookup_uses@,
                a.tables@ == a0.tables@,
                a.gate_uses@ == a0.gate_uses@,
                a.copies@ == a0.copies@,
                a.publics@ == a0.publics@,
                a.next_row == r0,
            decreases b_values@.len() - r,
        {
            a.assign(self.config.advice_b, base.saturating_add(r), b_values[r]);
            r = r + 1;
        }
        let mut r: usize = 0;
        while r < a_values.len()
            invariant
                r <= a_values@.len(),
                b_values@.len() > a_values@.len(),
                c0 == a0.cells@.len(),
                l0 == a0.lookup_uses@.len(),
                cb == c0 + a_values@.len(),
                a.cells@.len() == cb + b_values@.len(),
                cb + b_values@.len() <= usize::MAX,
                forall|j: int| 0 <= j < c0 ==> a.cells@[j] == #[trigger] a0.cells@[j],
                forall|k: int| 0 <= k < a_values@.len() ==> (#[trigger] a.cells@[c0 + k]).value == a_values@[k],
                forall|k: int| 0 <= k < b_values@.len() ==> (#[trigger] a.cells@[cb + k]).value == b_values@[k],
                a.lookup_uses@.len() == l0 + r,
                forall|i: int| 0 <= i < l0 ==> a.lookup_uses@[i] == #[trigger] a0.lookup_uses@[i],
                forall|k: int| 0 <= k < r ==> {
                    let u = #[trigger] a.lookup_uses@[l0 + k];
                    &&& u.lookup == self.config.q_lookup
                    &&& u.args@ == seq![(c0 + k) as usize, (cb + k + 1) as usize]
                },
                a.tables@ == a0.tables@,
                a.gate_uses@ == a0.gate_uses@,
                a.copies@ == a0.copies@,
                a.publics@ == a0.publics@,
                a.next_row == r0,
            decreases a_values@.len() - r,
        {
            let args = vec![c0 + r, cb + r + 1];
            assert(args@ =~= seq![(c0 + r) as usize, (cb + r + 1) as usize]);
            a.enable_lookup(self.config.q_lookup, base.saturating_add(r), args);
            r = r + 1;
        }
        let rows = twin_table(self.config.range);
        a.load_table(self.config.q_lookup, rows);
    }
}

/// Column A on a row equals column B on the next row, and is below the range.
pub open spec fn twin_rows_hold(a: Seq<Value>, b: Seq<Value>, range: nat) -> bool {
    &&& forall|r: int| 0 <= r < a.len() ==> (#[trigger] a[r]) is Known
    &&& forall|r: int| 0 <= r < b.len() ==> (#[trigger] b[r]) is Known
    &&& forall|r: int| 0 <= r < a.len() ==> (#[trigger] a[r])->Known_0.val() < range
        && a[r]->Known_0.val() == b[r + 1]->Known_0.val()
}

/// The witness of the dual-table circuit: two columns, the second read one
/// row below the first.
#[derive(Debug)]
pub struct RangeLookupCircuit {
    pub range: u64,
    pub a: Vec<Value>,
    pub b: Vec<Value>,
}

impl RangeLookupCircuit {
    /// Configures the chip, assigns both columns and the tables in a grid of
    /// `2^k` rows, and checks the assignment. Column B must be longer than
    /// column A, and the grid must hold column B and the tables. The check
    /// passes exactly when every value is known and each A value is below
    /// the range and equal to the B value on the next row.
    pub fn run(&self, k: u32) -> (r: Result<Result<(), Vec<Failure>>, CircuitError>)
        requires
            self.a@.len() + self.b@.len() <= usize::MAX,
        ensures
            r.is_ok() == (self.b@.len() > self.a@.len() && after(0, self.b@.len() as int) <= two_pow(k as nat)
                && self.range <= two_pow(k as nat)),
            self.b@.len() <= self.a@.len() ==> r == Err::<Result<(), Vec<Failure>>, _>(
                CircuitError::ShortColumn { rows: self.a@.len() as usize, found: self.b@.len() as usize },
            ),
            self.b@.len() > self.a@.len() && r is Err ==> r == Err::<Result<(), Vec<Failure>>, _>(
                CircuitError::NotEnoughRows { k },
            ),
            r matches Ok(v) ==> v.is_ok() == twin_rows_hold(self.a@, self.b@, self.range as nat),
    {
        if self.b.len() <= self.a.len() {
            return Err(CircuitError::ShortColumn { rows: self.a.len(), found: self.b.len() });
        }
        let mut cs = ConstraintSystem::new();
        let config = RangeLookupChip::configure(&mut cs, self.range);
        let chip = RangeLookupChip::construct(config);
        let mut asg = Assignment::new();
        chip.assign(&mut asg, &self.a, &self.b);
        if !fits_rows(&asg, k) {
            return Err(CircuitError::NotEnoughRows { k });
        }
        proof {
            let range = self.range as nat;
            let alen = self.a@.len();
            let t = asg.tables@[0];
            assert(asg.tables@.len() == 1);
            assert forall|r: int| 0 <= r < alen implies lookup_use_holds(&cs, &asg, #[trigger] &asg.lookup_uses@[r])
                == (self.a@[r] is Known && self.b@[r + 1] is Known && self.a@[r]->Known_0.val() < range
                && self.a@[r]->Known_0.val() == self.b@[r + 1]->Known_0.val()) by {
                let u = asg.lookup_uses@[0 + r];
                assert(asg.cells@[0 + r].value == self.a@[r]);
                assert(asg.cells@[0 + alen + (r + 1)].value == self.b@[r + 1]);
                if self.a@[r] is Known && self.b@[r + 1] is Known {
                    let vals = arg_values(&asg, u.args@);
                    let x = cell_fe(&asg, u.args@[0]);
                    let y = cell_fe(&asg, u.args@[1]);
                    assert(vals =~= seq![x, y]);
                    lemma_twin_table_lookup(&t, range, x, y);
                    if x.val() < range && x.val() == y.val() {
                        assert(asg.tables@[0].lookup == u.lookup);
                    }
                } else if self.a@[r] is Unknown {
                    assert(!cell_known(&asg, u.args@[0]));
                } else {
                    assert(!cell_known(&asg, u.args@[1]));
                }
            }
            if twin_rows_hold(self.a@, self.b@, range) {
                assert forall|j: int| 0 <= j < asg.cells@.len() implies (#[trigger] asg.cells@[j]).value is Known by {
                    if j < alen {
                        assert(asg.cells@[0 + j].value == self.a@[j]);
                    } else {
                        assert(asg.cells@[0 + alen + (j - alen)].value == self.b@[j - alen]);
                    }
                }
                assert forall|r: int| 0 <= r < asg.lookup_uses@.len() implies lookup_use_holds(&cs, &asg, #[trigger] &asg.lookup_uses@[r]) by {
                    assert(self.a@[r] is Known);
                    assert(self.b@[r + 1] is Known);
                }
                assert(satisfied(&cs, &asg, Seq::<Fe>::empty()));
            }
            if satisfied(&cs, &asg, Seq::<Fe>::empty()) {
                assert forall|r: int| 0 <= r < alen implies (#[trigger] self.a@[r]) is Known by {
                    assert(asg.cells@[0 + r].value == self.a@[r]);
                    assert(asg.cells@[r].value is Known);
                }
                assert forall|r: int| 0 <= r < self.b@.len() implies (#[trigger] self.b@[r]) is Known by {
                    assert(asg.cells@[0 + alen + r].value == self.b@[r]);
                    assert(asg.cells@[alen + r].value is Known);
                }
                assert forall|r: int| 0 <= r < alen implies (#[trigger] self.a@[r])->Known_0.val() < range
                    && self.a@[r]->Known_0.val() == self.b@[r + 1]->Known_0.val() by {
                    assert(lookup_use_holds(&cs, &asg, &asg.lookup_uses@[r]));
                }
            }
        }
        let empty: Vec<Fe> = Vec::new();
        assert(empty@ =~= Seq::<Fe>::empty());
        Ok(verify(&cs, &asg, &empty))
    }
}

/// Row `k` of the table holds `k`, for every `k` below `range`.
pub open spec fn is_value_table(rows: Seq<Vec<Fe>>, range: nat) -> bool {
    &&& rows.len() == range
    &&& forall|k: int| 0 <= k < rows.len() ==> (#[trigger] rows[k])@.len() == 1 && rows[k]@[0].val() == k
}

/// Builds the table `0 .. range` of one column.
pub fn value_table(range: u64) -> (r: Vec<Vec<Fe>>)
    ensures
        is_value_table(r@, range as nat),
{
    let mut rows: Vec<Vec<Fe>> = Vec::new();
    let mut i: u64 = 0;
    while i < range
        invariant
            i <= range,
            rows@.len() == i,
            forall|k: int| 0 <= k < rows@.len() ==> (#[trigger] rows@[k])@.len() == 1 && rows@[k]@[0].val() == k,
        decreases range - i,
    {
        rows.push(vec![Fe::from_u64(i)]);
        i = i + 1;
    }
    rows
}

/// The witness of the single-column range lookup: each value must lie in
/// `0 .. range`.
#[derive(Debug)]
pub struct ValueRangeCircuit {
    pub range: u64,
    pub values: Vec<Value>,
}

impl ValueRangeCircuit {
    /// Loads the table, places each value on a row of one column with the
    /// lookup enabled there, in a grid of `2^k` rows, and checks the
    /// assignment. A grid that holds neither the table nor the values fails
    /// synthesis. The check passes exactly when every value is known and
    /// below the range.
    pub fn run(&self, k: u32) -> (r: Result<Result<(), Vec<Failure>>, CircuitError>)
        ensures
            r.is_ok() == (after(0, self.values@.len() as int) <= two_pow(k as nat) && self.range <= two_pow(k as nat)),
            r matches Err(e) ==> e == (CircuitError::NotEnoughRows { k }),
            r matches Ok(v) ==> v.is_ok() == forall|i: int| 0 <= i < self.values@.len() ==> {
                &&& #[trigger] self.values@[i] is Known
                &&& self.values@[i]->Known_0.val() < self.range
            },
    {
        let mut cs = ConstraintSystem::new();
        let column = cs.allocate_column(ColumnKind::Advice);
        let q = cs.create_lookup(String::from_str("range"), 1);
        let mut asg = Assignment::new();
        asg.load_table(q, value_table(self.range));
        let base = asg.region(self.values.len());
        let mut i: usize = 0;
        while i < self.values.len()
            invariant
                i <= self.values@.len(),
                cs.lookups@.len() == 1,
                q == 0,
                cs.lookups@[0].width == 1,
                asg.tables@.len() == 1,
                asg.tables@[0].lookup == q,
                is_value_table(asg.tables@[0].rows@, self.range as nat),
                asg.next_row == after(0, self.values@.len() as int),
                asg.cells@.len() == i,
                asg.lookup_uses@.len() == i,
                asg.gate_uses@.len() == 0,
                asg.copies@.len() == 0,
                asg.publics@.len() == 0,
                forall|j: int| 0 <= j < i ==> (#[trigger] asg.cells@[j]).value == self.values@[j],
                forall|j: int| 0 <= j < i ==> (#[trigger] asg.lookup_uses@[j]).lookup == q
                    && asg.lookup_uses@[j].args@ == seq![j as usize],
            decreases self.values@.len() - i,
        {
            let c = asg.assign(column, base.saturating_add(i), self.values[i]);
            let args = vec![c];
            assert(args@ =~= seq![i]);
            asg.enable_lookup(q, base.saturating_add(i), args);
            i = i + 1;
        }
        if !fits_rows(&asg, k) {
            return Err(CircuitError::NotEnoughRows { k });
        }
        proof {
            let range = self.range as nat;
            let t = asg.tables@[0];
            assert forall|j: int| 0 <= j < self.values@.len() implies lookup_use_holds(&cs, &asg, #[trigger] &asg.lookup_uses@[j])
                == (self.values@[j] is Known && self.values@[j]->Known_0.val() < range) by {
                let u = asg.lookup_uses@[j];
                if self.values@[j] is Known {
                    let x = cell_fe(&asg, j as usize);
                    let vals = arg_values(&asg, u.args@);
                    assert(vals =~= seq![x]);
                    if x.val() < range {
                        assert(row_matches(t.rows@[x.val() as int]@, vals));
                        assert(asg.tables@[0].lookup == u.lookup);
                    }
                    if in_table(&t, vals) {
                        let m = choose|m: int| 0 <= m < t.rows@.len() && row_matches(#[trigger] t.rows@[m]@, vals);
                        assert(t.rows@[m]@[0].val() == vals[0].val());
                    }
                } else {
                    assert(!cell_known(&asg, u.args@[0]));
                }
            }
            if forall|j: int| 0 <= j < self.values@.len() ==> {
                &&& #[trigger] self.values@[j] is Known
                &&& self.values@[j]->Known_0.val() < range
            } {
                assert forall|j: int| 0 <= j < asg.cells@.len() implies (#[trigger] asg.cells@[j]).value is Known by {
                    assert(self.values@[j] is Known);
                }
                assert forall|j: int| 0 <= j < asg.lookup_uses@.len() implies lookup_use_holds(&cs, &asg, #[trigger] &asg.lookup_uses@[j]) by {
                    assert(self.values@[j] is Known);
                }
                assert(satisfied(&cs, &asg, Seq::<Fe>::empty()));
            }
            if satisfied(&cs, &asg, Seq::<Fe>::empty()) {
                assert forall|j: int| 0 <= j < self.values@.len() implies {
                    &&& #[trigger] self.values@[j] is Known
                    &&& self.values@[j]->Known_0.val() < range
                } by {
                    assert(lookup_use_holds(&cs, &asg, &asg.lookup_uses@[j]));
                }
            }
        }
        let empty: Vec<Fe> = Vec::new();
        assert(empty@ =~= Seq::<Fe>::empty());
        Ok(verify(&cs, &asg, &empty))
    }
}

} // verus!
