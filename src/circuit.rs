//! The constraint system and its assignment: named polynomial gates, named
//! lookups, cells that are assigned once, copy constraints and public
//! bindings, and `verify`, which replays an assignment and names every
//! violated constraint with its row.
use crate::field::{val_of, reduce, Fe, Value};
use vstd::prelude::*;

verus! {

/// A polynomial over the arguments of one gate use.
pub enum Expr {
    Arg(usize),
    Const(Fe),
    Sum(Box<Expr>, Box<Expr>),
    Diff(Box<Expr>, Box<Expr>),
    Product(Box<Expr>, Box<Expr>),
}

/// The field value of an expression, given the values of its arguments. An
/// argument past the end reads as zero.
pub open spec fn eval(e: Expr, args: Seq<Fe>) -> nat
    decreases e,
{
    match e {
        Expr::Arg(i) => if i < args.len() {
            args[i as int].val()
        } else {
            0
        },
        Expr::Const(c) => c.val(),
        Expr::Sum(a, b) => reduce(eval(*a, args) as int + eval(*b, args)),
        Expr::Diff(a, b) => reduce(eval(*a, args) - eval(*b, args)),
        Expr::Product(a, b) => reduce(eval(*a, args) as int * eval(*b, args)),
    }
}

/// Evaluates an expression over the given argument values.
pub fn eval_expr(e: &Expr, args: &Vec<Fe>) -> (r: Fe)
    ensures
        r.val() == eval(*e, args@),
    decreases e,
{
    match e {
        Expr::Arg(i) => if *i < args.len() {
            args[*i]
        } else {
            Fe::from_u64(0)
        },
        Expr::Const(c) => *c,
        Expr::Sum(a, b) => eval_expr(a, args).add(&eval_expr(b, args)),
        Expr::Diff(a, b) => eval_expr(a, args).sub(&eval_expr(b, args)),
        Expr::Product(a, b) => eval_expr(a, args).mul(&eval_expr(b, args)),
    }
}

/// A named set of identities over `width` arguments; each must vanish
/// wherever it is enabled.
pub struct Gate {
    pub name: String,
    pub width: usize,
    pub polys: Vec<Expr>,
}

/// A named membership check of a tuple of `width` cells against a table.
pub struct Lookup {
    pub name: String,
    pub width: usize,
}

/// The kind of a column, fixed when it is allocated.
#[derive(Clone, Copy, Debug, PartialEq, Eq, Structural)]
pub enum ColumnKind {
    /// Private witness values.
    Advice,
    /// Values bound to the public input vector.
    Instance,
    /// Values baked into the grid at configuration.
    Fixed,
}

/// The shape of a circuit: its columns with their kinds, its gates and its
/// lookups, fixed at configuration.
pub struct ConstraintSystem {
    pub columns: Vec<ColumnKind>,
    pub gates: Vec<Gate>,
    pub lookups: Vec<Lookup>,
}

impl ConstraintSystem {
    pub fn new() -> (r: ConstraintSystem)
        ensures
            r.columns@.len() == 0,
            r.gates@.len() == 0,
            r.lookups@.len() == 0,
    {
        ConstraintSystem { columns: Vec::new(), gates: Vec::new(), lookups: Vec::new() }
    }

    /// Allocates a new column of the given kind and returns its index.
    pub fn allocate_column(&mut self, kind: ColumnKind) -> (r: usize)
        ensures
            r == old(self).columns@.len(),
            final(self).columns@ == old(self).columns@.push(kind),
            final(self).gates@ == old(self).gates@,
            final(self).lookups@ == old(self).lookups@,
    {
        let r = self.columns.len();
        self.columns.push(kind);
        r
    }

    /// Registers a gate and returns its handle.
    pub fn create_gate(&mut self, name: String, width: usize, polys: Vec<Expr>) -> (r: usize)
        ensures
            r == old(self).gates@.len(),
            final(self).gates@ == old(self).gates@.push(Gate { name, width, polys }),
            final(self).lookups@ == old(self).lookups@,
            final(self).columns@ == old(self).columns@,
    {
        let r = self.gates.len();
        self.gates.push(Gate { name, width, polys });
        r
    }

    /// Registers a lookup and returns its handle.
    pub fn create_lookup(&mut self, name: String, width: usize) -> (r: usize)
        ensures
            r == old(self).lookups@.len(),
            final(self).lookups@ == old(self).lookups@.push(Lookup { name, width }),
            final(self).gates@ == old(self).gates@,
            final(self).columns@ == old(self).columns@,
    {
        let r = self.lookups.len();
        self.lookups.push(Lookup { name, width });
        r
    }
}

/// One assigned cell.
#[derive(Clone, Copy, Debug)]
pub struct Cell {
    pub column: usize,
    pub row: usize,
    pub value: Value,
}

/// A gate enabled on a row, with the cells it reads.
pub struct GateUse {
    pub gate: usize,
    pub row: usize,
    pub args: Vec<usize>,
}

/// A lookup enabled on a row, with the cells it reads.
pub struct LookupUse {
    pub lookup: usize,
    pub row: usize,
    pub args: Vec<usize>,
}

/// The contents of one lookup's table.
pub struct Table {
    pub lookup: usize,
    pub rows: Vec<Vec<Fe>>,
}

/// One synthesis: cells, enabled gates and lookups, tables, copy
/// constraints and public bindings. A cell is a handle into `cells`, so each
/// is assigned exactly once.
pub struct Assignment {
    pub cells: Vec<Cell>,
    pub gate_uses: Vec<GateUse>,
    pub lookup_uses: Vec<LookupUse>,
    pub tables: Vec<Table>,
    pub copies: Vec<(usize, usize)>,
    pub publics: Vec<(usize, usize)>,
    pub next_row: usize,
}

/// The row counter after `height` more rows; it stops at the largest row.
pub open spec fn after(rows: usize, height: int) -> usize {
    if rows + height <= usize::MAX {
        (rows + height) as usize
    } else {
        usize::MAX
    }
}

/// Two to the power `e`.
pub open spec fn two_pow(e: nat) -> nat
    decreases e,
{
    if e == 0 {
        1
    } else {
        2 * two_pow((e - 1) as nat)
    }
}

/// Powers of two grow with the exponent.
pub proof fn lemma_two_pow_le(a: nat, b: nat)
    requires
        a <= b,
    ensures
        two_pow(a) <= two_pow(b),
    decreases b,
{
    if a < b {
        lemma_two_pow_le(a, (b - 1) as nat);
    }
}

/// The grid of `rows` rows holds every region and every table.
pub open spec fn fits(a: &Assignment, rows: nat) -> bool {
    &&& a.next_row <= rows
    &&& forall|t: int| 0 <= t < a.tables@.len() ==> (#[trigger] a.tables@[t]).rows@.len() <= rows
}

/// Whether a grid of `2^k` rows holds every region and every table of the assignment.
pub fn fits_rows(a: &Assignment, k: u32) -> (r: bool)
    ensures
        r == fits(a, two_pow(k as nat)),
{
    proof {
        reveal_with_fuel(two_pow, 65);
        assert(two_pow(64) == 0x1_0000_0000_0000_0000);
    }
    let top: u32 = if k < 64 { k } else { 64 };
    let mut cap: u128 = 1;
    let mut i: u32 = 0;
    while i < top
        invariant
            i <= top <= 64,
            top == k || (top == 64 && k >= 64),
            cap == two_pow(i as nat),
            two_pow(64) == 0x1_0000_0000_0000_0000,
        decreases top - i,
    {
        proof {
            lemma_two_pow_le(i as nat, 63);
            assert(two_pow(64) == 2 * two_pow(63));
        }
        cap = cap * 2;
        i = i + 1;
    }
    proof {
        lemma_two_pow_le(top as nat, k as nat);
    }
    if a.next_row as u128 > cap {
        return false;
    }
    let mut t: usize = 0;
    while t < a.tables.len()
        invariant
            t <= a.tables@.len(),
            cap == two_pow(top as nat),
            cap <= two_pow(k as nat),
            top == k || (top == 64 && k >= 64),
            two_pow(64) == 0x1_0000_0000_0000_0000,
            forall|m: int| 0 <= m < t ==> (#[trigger] a.tables@[m]).rows@.len() <= two_pow(k as nat),
        decreases a.tables@.len() - t,
    {
        if a.tables[t].rows.len() as u128 > cap {
            return false;
        }
        t = t + 1;
    }
    true
}

/// The element held by a known cell.
pub open spec fn cell_fe(a: &Assignment, i: usize) -> Fe {
    a.cells@[i as int].value->Known_0
}

pub open spec fn cell_known(a: &Assignment, i: usize) -> bool {
    i < a.cells@.len() && a.cells@[i as int].value is Known
}

/// The values of the cells named by `args`.
pub open spec fn arg_values(a: &Assignment, args: Seq<usize>) -> Seq<Fe> {
    Seq::new(args.len(), |j: int| cell_fe(a, args[j]))
}

pub open spec fn args_known(a: &Assignment, args: Seq<usize>) -> bool {
    forall|j: int| 0 <= j < args.len() ==> cell_known(a, #[trigger] args[j])
}

pub open spec fn gate_use_holds(cs: &ConstraintSystem, a: &Assignment, u: &GateUse) -> bool {
    &&& u.gate < cs.gates@.len()
    &&& u.args@.len() == cs.gates@[u.gate as int].width
    &&& args_known(a, u.args@)
    &&& forall|k: int|
        0 <= k < cs.gates@[u.gate as int].polys@.len() ==> eval(
            #[trigger] cs.gates@[u.gate as int].polys@[k],
            arg_values(a, u.args@),
        ) == 0
}

/// A table row equals a tuple of values, element by element.
pub open spec fn row_matches(row: Seq<Fe>, vals: Seq<Fe>) -> bool {
    row.len() == vals.len() && forall|j: int| 0 <= j < row.len() ==> #[trigger] row[j].val()
        == vals[j].val()
}

pub open spec fn in_table(t: &Table, vals: Seq<Fe>) -> bool {
    exists|r: int| 0 <= r < t.rows@.len() && row_matches(#[trigger] t.rows@[r]@, vals)
}

pub open spec fn lookup_use_holds(cs: &ConstraintSystem, a: &Assignment, u: &LookupUse) -> bool {
    &&& u.lookup < cs.lookups@.len()
    &&& u.args@.len() == cs.lookups@[u.lookup as int].width
    &&& args_known(a, u.args@)
    &&& exists|t: int|
        0 <= t < a.tables@.len() && (#[trigger] a.tables@[t]).lookup == u.lookup && in_table(
            &a.tables@[t],
            arg_values(a, u.args@),
        )
}

pub open spec fn copy_holds(a: &Assignment, c: (usize, usize)) -> bool {
    cell_known(a, c.0) && cell_known(a, c.1) && cell_fe(a, c.0).val() == cell_fe(a, c.1).val()
}

pub open spec fn public_holds(a: &Assignment, p: (usize, usize), instance: Seq<Fe>) -> bool {
    cell_known(a, p.0) && p.1 < instance.len() && cell_fe(a, p.0).val() == instance[p.1 as int].val()
}

/// Every cell known, every enabled gate vanishing, every lookup landing in
/// its table and every copy constraint holding.
pub open spec fn consistent(cs: &ConstraintSystem, a: &Assignment) -> bool {
    &&& forall|i: int| 0 <= i < a.cells@.len() ==> (#[trigger] a.cells@[i]).value is Known
    &&& forall|i: int| 0 <= i < a.gate_uses@.len() ==> gate_use_holds(cs, a, #[trigger] &a.gate_uses@[i])
    &&& forall|i: int| 0 <= i < a.lookup_uses@.len() ==> lookup_use_holds(cs, a, #[trigger] &a.lookup_uses@[i])
    &&& forall|i: int| 0 <= i < a.copies@.len() ==> copy_holds(a, #[trigger] a.copies@[i])
}

/// Every public binding holds against the public input vector.
pub open spec fn publics_hold(a: &Assignment, instance: Seq<Fe>) -> bool {
    forall|i: int| 0 <= i < a.publics@.len() ==> public_holds(a, #[trigger] a.publics@[i], instance)
}

/// Every constraint of the assignment holds.
pub open spec fn satisfied(cs: &ConstraintSystem, a: &Assignment, instance: Seq<Fe>) -> bool {
    consistent(cs, a) && publics_hold(a, instance)
}

/// `n` is `o` with more cells, uses, tables, copies and bindings after the old ones.
pub open spec fn extends(o: &Assignment, n: &Assignment) -> bool {
    &&& o.cells@.len() <= n.cells@.len()
    &&& forall|i: int| 0 <= i < o.cells@.len() ==> n.cells@[i] == #[trigger] o.cells@[i]
    &&& o.gate_uses@.len() <= n.gate_uses@.len()
    &&& forall|i: int| 0 <= i < o.gate_uses@.len() ==> n.gate_uses@[i] == #[trigger] o.gate_uses@[i]
    &&& o.lookup_uses@.len() <= n.lookup_uses@.len()
    &&& forall|i: int| 0 <= i < o.lookup_uses@.len() ==> n.lookup_uses@[i] == #[trigger] o.lookup_uses@[i]
    &&& o.tables@.len() <= n.tables@.len()
    &&& forall|i: int| 0 <= i < o.tables@.len() ==> n.tables@[i] == #[trigger] o.tables@[i]
    &&& o.copies@.len() <= n.copies@.len()
    &&& forall|i: int| 0 <= i < o.copies@.len() ==> n.copies@[i] == #[trigger] o.copies@[i]
    &&& o.publics@.len() <= n.publics@.len()
    &&& forall|i: int| 0 <= i < o.publics@.len() ==> n.publics@[i] == #[trigger] o.publics@[i]
}

/// Two syntheses that produced the same cells, uses, tables, copy
/// constraints and bindings get the same verdict from the check, for the
/// same public inputs.
pub proof fn lemma_same_assignment_same_verdict(
    cs: &ConstraintSystem,
    first: &Assignment,
    second: &Assignment,
    instance: Seq<Fe>,
)
    requires
        first.cells@ == second.cells@,
        first.gate_uses@ == second.gate_uses@,
        first.lookup_uses@ == second.lookup_uses@,
        first.tables@ == second.tables@,
        first.copies@ == second.copies@,
        first.publics@ == second.publics@,
    ensures
        satisfied(cs, first, instance) == satisfied(cs, second, instance),
{
    assert(extends(first, second));
    assert(extends(second, first));
    if consistent(cs, first) {
        lemma_consistent_extend(cs, first, second);
    }
    if consistent(cs, second) {
        lemma_consistent_extend(cs, second, first);
    }
}

/// Some cell of the assignment holds no known value.
pub open spec fn has_unknown(a: &Assignment) -> bool {
    exists|j: int| 0 <= j < a.cells@.len() && (#[trigger] a.cells@[j]).value is Unknown
}

/// Some enabled gate reads known cells and does not vanish on them.
pub open spec fn has_failing_gate(cs: &ConstraintSystem, a: &Assignment) -> bool {
    exists|i: int|
        0 <= i < a.gate_uses@.len() && args_known(a, (#[trigger] a.gate_uses@[i]).args@) && !gate_use_holds(
            cs,
            a,
            &a.gate_uses@[i],
        )
}

/// A failing gate stays failing in every extension, which is then not consistent.
pub proof fn lemma_failing_gate_kept(cs: &ConstraintSystem, o: &Assignment, n: &Assignment)
    requires
        extends(o, n),
        has_failing_gate(cs, o),
    ensures
        has_failing_gate(cs, n),
        !consistent(cs, n),
{
    let i = choose|i: int|
        0 <= i < o.gate_uses@.len() && args_known(o, (#[trigger] o.gate_uses@[i]).args@) && !gate_use_holds(
            cs,
            o,
            &o.gate_uses@[i],
        );
    let u = &o.gate_uses@[i];
    assert(n.gate_uses@[i] == o.gate_uses@[i]);
    assert forall|j: int| 0 <= j < u.args@.len() implies cell_known(n, #[trigger] u.args@[j]) by {
        assert(cell_known(o, u.args@[j]));
        assert(n.cells@[u.args@[j] as int] == o.cells@[u.args@[j] as int]);
    }
    assert forall|j: int| 0 <= j < u.args@.len() implies #[trigger] arg_values(n, u.args@)[j] == arg_values(o, u.args@)[j] by {
        assert(cell_known(o, u.args@[j]));
        assert(n.cells@[u.args@[j] as int] == o.cells@[u.args@[j] as int]);
    }
    assert(arg_values(n, u.args@) =~= arg_values(o, u.args@));
    assert(!gate_use_holds(cs, n, &n.gate_uses@[i]));
}

/// An unknown cell stays in every extension.
pub proof fn lemma_unknown_kept(o: &Assignment, n: &Assignment)
    requires
        extends(o, n),
        has_unknown(o),
    ensures
        has_unknown(n),
{
    let j = choose|j: int| 0 <= j < o.cells@.len() && (#[trigger] o.cells@[j]).value is Unknown;
    assert(n.cells@[j] == o.cells@[j]);
}

/// Extension is transitive.
pub proof fn lemma_extends_trans(x: &Assignment, y: &Assignment, z: &Assignment)
    requires
        extends(x, y),
        extends(y, z),
    ensures
        extends(x, z),
{
    assert forall|i: int| 0 <= i < x.cells@.len() implies z.cells@[i] == #[trigger] x.cells@[i] by {
        assert(y.cells@[i] == x.cells@[i]);
    }
    assert forall|i: int| 0 <= i < x.gate_uses@.len() implies z.gate_uses@[i] == #[trigger] x.gate_uses@[i] by {
        assert(y.gate_uses@[i] == x.gate_uses@[i]);
    }
    assert forall|i: int| 0 <= i < x.lookup_uses@.len() implies z.lookup_uses@[i] == #[trigger] x.lookup_uses@[i] by {
        assert(y.lookup_uses@[i] == x.lookup_uses@[i]);
    }
    assert forall|i: int| 0 <= i < x.tables@.len() implies z.tables@[i] == #[trigger] x.tables@[i] by {
        assert(y.tables@[i] == x.tables@[i]);
    }
    assert forall|i: int| 0 <= i < x.copies@.len() implies z.copies@[i] == #[trigger] x.copies@[i] by {
        assert(y.copies@[i] == x.copies@[i]);
    }
    assert forall|i: int| 0 <= i < x.publics@.len() implies z.publics@[i] == #[trigger] x.publics@[i] by {
        assert(y.publics@[i] == x.publics@[i]);
    }
}

/// Constraints that held over an assignment still hold once it is extended.
pub proof fn lemma_extend_keeps(cs: &ConstraintSystem, o: &Assignment, n: &Assignment)
    requires
        extends(o, n),
    ensures
        forall|i: int| 0 <= i < o.gate_uses@.len() && gate_use_holds(cs, o, #[trigger] &o.gate_uses@[i])
            ==> gate_use_holds(cs, n, &n.gate_uses@[i]),
        forall|i: int| 0 <= i < o.lookup_uses@.len() && lookup_use_holds(cs, o, #[trigger] &o.lookup_uses@[i])
            ==> lookup_use_holds(cs, n, &n.lookup_uses@[i]),
        forall|i: int| 0 <= i < o.copies@.len() && copy_holds(o, #[trigger] o.copies@[i])
            ==> copy_holds(n, n.copies@[i]),
        forall|c: usize| #[trigger] cell_known(o, c) ==> cell_known(n, c) && cell_fe(n, c) == cell_fe(o, c),
{
    assert forall|i: int| 0 <= i < o.gate_uses@.len() && gate_use_holds(cs, o, #[trigger] &o.gate_uses@[i])
        implies gate_use_holds(cs, n, &n.gate_uses@[i]) by {
        let u = &o.gate_uses@[i];
        assert(n.gate_uses@[i] == o.gate_uses@[i]);
        assert forall|j: int| 0 <= j < u.args@.len() implies cell_known(n, #[trigger] u.args@[j]) by {
            assert(cell_known(o, u.args@[j]));
            assert(n.cells@[u.args@[j] as int] == o.cells@[u.args@[j] as int]);
        }
        assert forall|j: int| 0 <= j < u.args@.len() implies #[trigger] arg_values(n, u.args@)[j] == arg_values(o, u.args@)[j] by {
            assert(cell_known(o, u.args@[j]));
            assert(n.cells@[u.args@[j] as int] == o.cells@[u.args@[j] as int]);
        }
        assert(arg_values(n, u.args@) =~= arg_values(o, u.args@));
    }
    assert forall|i: int| 0 <= i < o.lookup_uses@.len() && lookup_use_holds(cs, o, #[trigger] &o.lookup_uses@[i])
        implies lookup_use_holds(cs, n, &n.lookup_uses@[i]) by {
        let u = &o.lookup_uses@[i];
        assert(n.lookup_uses@[i] == o.lookup_uses@[i]);
        assert forall|j: int| 0 <= j < u.args@.len() implies cell_known(n, #[trigger] u.args@[j]) by {
            assert(cell_known(o, u.args@[j]));
            assert(n.cells@[u.args@[j] as int] == o.cells@[u.args@[j] as int]);
        }
        assert forall|j: int| 0 <= j < u.args@.len() implies #[trigger] arg_values(n, u.args@)[j] == arg_values(o, u.args@)[j] by {
            assert(cell_known(o, u.args@[j]));
            assert(n.cells@[u.args@[j] as int] == o.cells@[u.args@[j] as int]);
        }
        assert(arg_values(n, u.args@) =~= arg_values(o, u.args@));
        let t = choose|t: int|
            0 <= t < o.tables@.len() && (#[trigger] o.tables@[t]).lookup == u.lookup && in_table(
                &o.tables@[t],
                arg_values(o, u.args@),
            );
        assert(n.tables@[t] == o.tables@[t]);
    }
    assert forall|i: int| 0 <= i < o.copies@.len() && copy_holds(o, #[trigger] o.copies@[i])
        implies copy_holds(n, n.copies@[i]) by {
        let c = o.copies@[i];
        assert(n.copies@[i] == c);
        assert(n.cells@[c.0 as int] == o.cells@[c.0 as int]);
        assert(n.cells@[c.1 as int] == o.cells@[c.1 as int]);
    }
    assert forall|c: usize| #[trigger] cell_known(o, c) implies cell_known(n, c) && cell_fe(n, c) == cell_fe(o, c) by {
        assert(n.cells@[c as int] == o.cells@[c as int]);
    }
}

/// An extension of a consistent assignment is consistent when what it adds holds.
pub proof fn lemma_consistent_extend(cs: &ConstraintSystem, o: &Assignment, n: &Assignment)
    requires
        extends(o, n),
        consistent(cs, o),
        forall|i: int| o.cells@.len() <= i < n.cells@.len() ==> (#[trigger] n.cells@[i]).value is Known,
        forall|i: int| o.gate_uses@.len() <= i < n.gate_uses@.len() ==> gate_use_holds(cs, n, #[trigger] &n.gate_uses@[i]),
        forall|i: int| o.lookup_uses@.len() <= i < n.lookup_uses@.len() ==> lookup_use_holds(cs, n, #[trigger] &n.lookup_uses@[i]),
        forall|i: int| o.copies@.len() <= i < n.copies@.len() ==> copy_holds(n, #[trigger] n.copies@[i]),
    ensures
        consistent(cs, n),
{
    lemma_extend_keeps(cs, o, n);
    assert forall|i: int| 0 <= i < n.cells@.len() implies (#[trigger] n.cells@[i]).value is Known by {
        if i < o.cells@.len() {
            assert(o.cells@[i].value is Known);
        }
    }
    assert forall|i: int| 0 <= i < n.gate_uses@.len() implies gate_use_holds(cs, n, #[trigger] &n.gate_uses@[i]) by {
        if i < o.gate_uses@.len() {
            assert(gate_use_holds(cs, o, &o.gate_uses@[i]));
        }
    }
    assert forall|i: int| 0 <= i < n.lookup_uses@.len() implies lookup_use_holds(cs, n, #[trigger] &n.lookup_uses@[i]) by {
        if i < o.lookup_uses@.len() {
            assert(lookup_use_holds(cs, o, &o.lookup_uses@[i]));
        }
    }
    assert forall|i: int| 0 <= i < n.copies@.len() implies copy_holds(n, #[trigger] n.copies@[i]) by {
        if i < o.copies@.len() {
            assert(copy_holds(o, o.copies@[i]));
        }
    }
}

/// A violated constraint, with the name and row that locate it.
#[derive(Debug)]
pub enum Failure {
    /// A cell holds no known value.
    Unknown { column: usize, row: usize },
    /// A gate use names a gate or cell that does not exist, the wrong number
    /// of cells, or a cell with no known value.
    GateShape { row: usize },
    /// One identity of a gate does not vanish.
    Gate { name: String, poly: usize, row: usize },
    /// A lookup use names a lookup or cell that does not exist, the wrong
    /// number of cells, or a cell with no known value.
    LookupShape { row: usize },
    /// The tuple read by a lookup is in none of its tables.
    Lookup { name: String, row: usize },
    /// Two cells declared equal differ.
    Copy { row_a: usize, row_b: usize },
    /// A cell bound to a public slot differs from the public value.
    Public { slot: usize, row: usize },
}

/// Everything an assignment declares but its cell values: where each cell
/// sits, its gate and lookup uses with the cells they read, the number of
/// tables, the copy constraints, the public bindings and the row counter.
pub struct Shape {
    pub positions: Seq<(usize, usize)>,
    pub gates: Seq<(usize, usize, Seq<usize>)>,
    pub lookups: Seq<(usize, usize, Seq<usize>)>,
    pub tables: nat,
    pub copies: Seq<(usize, usize)>,
    pub publics: Seq<(usize, usize)>,
    pub next_row: usize,
}

/// The shape of an assignment.
pub open spec fn shape(a: &Assignment) -> Shape {
    Shape {
        positions: a.cells@.map_values(|c: Cell| (c.column, c.row)),
        gates: a.gate_uses@.map_values(|u: GateUse| (u.gate, u.row, u.args@)),
        lookups: a.lookup_uses@.map_values(|u: LookupUse| (u.lookup, u.row, u.args@)),
        tables: a.tables@.len(),
        copies: a.copies@,
        publics: a.publics@,
        next_row: a.next_row,
    }
}

/// The values of the cells, in order.
pub open spec fn vals(a: &Assignment) -> Seq<Option<nat>> {
    a.cells@.map_values(|c: Cell| val_of(c.value))
}

/// Two witness values agree: both unknown, or both known with one value.
pub open spec fn agree(v: Value, w: Value) -> bool {
    match (v, w) {
        (Value::Known(x), Value::Known(y)) => x.val() == y.val(),
        (Value::Unknown, Value::Unknown) => true,
        _ => false,
    }
}

/// Two assignments hold agreeing values cell by cell.
pub open spec fn same_values(a1: &Assignment, a2: &Assignment) -> bool {
    &&& a1.cells@.len() == a2.cells@.len()
    &&& forall|i: int| 0 <= i < a1.cells@.len() ==> agree(#[trigger] a1.cells@[i].value, a2.cells@[i].value)
}

impl Shape {
    /// The shape after opening a region of `height` rows.
    pub open spec fn region(self, height: usize) -> Shape {
        Shape { next_row: after(self.next_row, height as int), ..self }
    }

    /// The shape after assigning a cell.
    pub open spec fn cell(self, column: usize, row: usize) -> Shape {
        Shape { positions: self.positions.push((column, row)), ..self }
    }

    /// The shape after copying cell `from` into a new cell.
    pub open spec fn copy(self, from: usize, column: usize, row: usize) -> Shape {
        Shape {
            positions: self.positions.push((column, row)),
            copies: self.copies.push((from, self.positions.len() as usize)),
            ..self
        }
    }

    /// The shape after enabling a gate.
    pub open spec fn gate(self, gate: usize, row: usize, args: Seq<usize>) -> Shape {
        Shape { gates: self.gates.push((gate, row, args)), ..self }
    }

    /// The shape after binding a cell to a public slot.
    pub open spec fn public(self, cell: usize, slot: usize) -> Shape {
        Shape { publics: self.publics.push((cell, slot)), ..self }
    }
}

impl Assignment {
    pub fn new() -> (r: Assignment)
        ensures
            r.cells@.len() == 0,
            r.gate_uses@.len() == 0,
            r.lookup_uses@.len() == 0,
            r.tables@.len() == 0,
            r.copies@.len() == 0,
            r.publics@.len() == 0,
            r.next_row == 0,
    {
        Assignment {
            cells: Vec::new(),
            gate_uses: Vec::new(),
            lookup_uses: Vec::new(),
            tables: Vec::new(),
            copies: Vec::new(),
            publics: Vec::new(),
            next_row: 0,
        }
    }

    /// Opens a region of `height` rows and returns its first row. Regions are
    /// laid out one after another; the counter stops at the largest row.
    pub fn region(&mut self, height: usize) -> (r: usize)
        ensures
            r == old(self).next_row,
            final(self).next_row == after(old(self).next_row, height as int),
            shape(final(self)) == shape(old(self)).region(height),
            vals(final(self)) == vals(old(self)),
            final(self).cells@ == old(self).cells@,
            final(self).gate_uses@ == old(self).gate_uses@,
            final(self).lookup_uses@ == old(self).lookup_uses@,
            final(self).tables@ == old(self).tables@,
            final(self).copies@ == old(self).copies@,
            final(self).publics@ == old(self).publics@,
    {
        let r = self.next_row;
        self.next_row = self.next_row.saturating_add(height);
        proof {
            assert(shape(self) == shape(old(self)).region(height));
        }
        r
    }

    /// Assigns a fresh cell and returns its handle.
    pub fn assign(&mut self, column: usize, row: usize, value: Value) -> (r: usize)
        ensures
            r == old(self).cells@.len(),
            final(self).cells@ == old(self).cells@.push(Cell { column, row, value }),
            shape(final(self)) == shape(old(self)).cell(column, row),
            vals(final(self)) == vals(old(self)).push(val_of(value)),
            final(self).gate_uses@ == old(self).gate_uses@,
            final(self).lookup_uses@ == old(self).lookup_uses@,
            final(self).tables@ == old(self).tables@,
            final(self).copies@ == old(self).copies@,
            final(self).publics@ == old(self).publics@,
            final(self).next_row == old(self).next_row,
    {
        let r = self.cells.len();
        self.cells.push(Cell { column, row, value });
        proof {
            assert(shape(self).positions =~= shape(old(self)).positions.push((column, row)));
            assert(shape(self).gates =~= shape(old(self)).gates);
            assert(shape(self).lookups =~= shape(old(self)).lookups);
            assert(vals(self) =~= vals(old(self)).push(val_of(value)));
        }
        r
    }

    /// Assigns a fresh cell holding the value of `from`, and constrains the
    /// two to be equal.
    pub fn copy_advice(&mut self, from: usize, column: usize, row: usize) -> (r: usize)
        requires
            from < old(self).cells@.len(),
        ensures
            r == old(self).cells@.len(),
            final(self).cells@ == old(self).cells@.push(
                Cell { column, row, value: old(self).cells@[from as int].value },
            ),
            final(self).copies@ == old(self).copies@.push((from, r)),
            shape(final(self)) == shape(old(self)).copy(from, column, row),
            vals(final(self)) == vals(old(self)).push(vals(old(self))[from as int]),
            final(self).gate_uses@ == old(self).gate_uses@,
            final(self).lookup_uses@ == old(self).lookup_uses@,
            final(self).tables@ == old(self).tables@,
            final(self).publics@ == old(self).publics@,
            final(self).next_row == old(self).next_row,
    {
        let value = self.cells[from].value;
        let r = self.cells.len();
        self.cells.push(Cell { column, row, value });
        self.copies.push((from, r));
        proof {
            assert(vals(self) =~= vals(old(self)).push(vals(old(self))[from as int]));
            assert(shape(self).positions =~= shape(old(self)).positions.push((column, row)));
            assert(shape(self).gates =~= shape(old(self)).gates);
            assert(shape(self).lookups =~= shape(old(self)).lookups);
        }
        r
    }

    /// Enables a gate on a row over the given cells.
    pub fn enable_gate(&mut self, gate: usize, row: usize, args: Vec<usize>)
        ensures
            final(self).gate_uses@ == old(self).gate_uses@.push(GateUse { gate, row, args }),
            shape(final(self)) == shape(old(self)).gate(gate, row, args@),
            vals(final(self)) == vals(old(self)),
            final(self).cells@ == old(self).cells@,
            final(self).lookup_uses@ == old(self).lookup_uses@,
            final(self).tables@ == old(self).tables@,
            final(self).copies@ == old(self).copies@,
            final(self).publics@ == old(self).publics@,
            final(self).next_row == old(self).next_row,
    {
        let ghost args_view = args@;
        self.gate_uses.push(GateUse { gate, row, args });
        proof {
            assert(shape(self).positions =~= shape(old(self)).positions);
            assert(shape(self).gates =~= shape(old(self)).gates.push((gate, row, args_view)));
            assert(shape(self).lookups =~= shape(old(self)).lookups);
        }
    }

    /// Enables a lookup on a row over the given cells.
    pub fn enable_lookup(&mut self, lookup: usize, row: usize, args: Vec<usize>)
        ensures
            final(self).lookup_uses@ == old(self).lookup_uses@.push(LookupUse { lookup, row, args }),
            final(self).cells@ == old(self).cells@,
            final(self).gate_uses@ == old(self).gate_uses@,
            final(self).tables@ == old(self).tables@,
            final(self).copies@ == old(self).copies@,
            final(self).publics@ == old(self).publics@,
            final(self).next_row == old(self).next_row,
    {
        self.lookup_uses.push(LookupUse { lookup, row, args });
    }

    /// Fills the table of a lookup.
    pub fn load_table(&mut self, lookup: usize, rows: Vec<Vec<Fe>>)
        ensures
            final(self).tables@ == old(self).tables@.push(Table { lookup, rows }),
            final(self).cells@ == old(self).cells@,
            final(self).gate_uses@ == old(self).gate_uses@,
            final(self).lookup_uses@ == old(self).lookup_uses@,
            final(self).copies@ == old(self).copies@,
            final(self).publics@ == old(self).publics@,
            final(self).next_row == old(self).next_row,
    {
        self.tables.push(Table { lookup, rows });
    }

    /// Binds a cell to a slot of the public input vector.
    pub fn constrain_public(&mut self, cell: usize, slot: usize)
        ensures
            final(self).publics@ == old(self).publics@.push((cell, slot)),
            shape(final(self)) == shape(old(self)).public(cell, slot),
            vals(final(self)) == vals(old(self)),
            final(self).cells@ == old(self).cells@,
            final(self).gate_uses@ == old(self).gate_uses@,
            final(self).lookup_uses@ == old(self).lookup_uses@,
            final(self).tables@ == old(self).tables@,
            final(self).copies@ == old(self).copies@,
            final(self).next_row == old(self).next_row,
    {
        self.publics.push((cell, slot));
        proof {
            assert(shape(self).positions =~= shape(old(self)).positions);
            assert(shape(self).gates =~= shape(old(self)).gates);
            assert(shape(self).lookups =~= shape(old(self)).lookups);
        }
    }
}

/// The values of the cells `args`, where each names a known cell.
fn read_args(a: &Assignment, args: &Vec<usize>) -> (r: Option<Vec<Fe>>)
    ensures
        r.is_some() == args_known(a, args@),
        r matches Some(v) ==> v@ == arg_values(a, args@),
{
    let mut v: Vec<Fe> = Vec::new();
    let mut j: usize = 0;
    while j < args.len()
        invariant
            j <= args@.len(),
            v@ == arg_values(a, args@.take(j as int)),
            forall|i: int| 0 <= i < j ==> cell_known(a, #[trigger] args@[i]),
        decreases args@.len() - j,
    {
        let c = args[j];
        if c >= a.cells.len() {
            return None;
        }
        match a.cells[c].value {
            Value::Known(f) => v.push(f),
            Value::Unknown => return None,
        }
        j = j + 1;
        assert(v@ =~= arg_values(a, args@.take(j as int)));
    }
    assert(args@.take(j as int) =~= args@);
    Some(v)
}

/// Some failure in the list satisfies `p`.
pub open spec fn listed(fs: Seq<Failure>, p: spec_fn(Failure) -> bool) -> bool {
    exists|j: int| 0 <= j < fs.len() && p(#[trigger] fs[j])
}

/// `fs` is the start of `gs`.
pub open spec fn starts(fs: Seq<Failure>, gs: Seq<Failure>) -> bool {
    fs.len() <= gs.len() && forall|j: int| 0 <= j < fs.len() ==> gs[j] == #[trigger] fs[j]
}

/// What is listed stays listed when more failures follow.
pub proof fn lemma_listed_kept(fs: Seq<Failure>, gs: Seq<Failure>)
    requires
        starts(fs, gs),
    ensures
        forall|p: spec_fn(Failure) -> bool| #[trigger] listed(fs, p) ==> listed(gs, p),
{
    assert forall|p: spec_fn(Failure) -> bool| #[trigger] listed(fs, p) implies listed(gs, p) by {
        let j = choose|j: int| 0 <= j < fs.len() && p(#[trigger] fs[j]);
        assert(gs[j] == fs[j]);
    }
}

/// The failure names an unknown cell.
pub open spec fn names_cell(c: Cell) -> spec_fn(Failure) -> bool {
    |f: Failure| f == Failure::Unknown { column: c.column, row: c.row }
}

/// The failure locates a gate use: its row, and the name of its gate when
/// that gate exists and its cells could be read.
pub open spec fn names_gate(cs: &ConstraintSystem, u: &GateUse) -> spec_fn(Failure) -> bool {
    |f: Failure| match f {
        Failure::GateShape { row } => row == u.row,
        Failure::Gate { name, row, .. } => row == u.row && u.gate < cs.gates@.len() && name@
            == cs.gates@[u.gate as int].name@,
        _ => false,
    }
}

/// The failure locates the lookup use: its row, and its lookup's name when
/// the lookup exists and its cells could be read.
pub open spec fn names_lookup(cs: &ConstraintSystem, u: &LookupUse) -> spec_fn(Failure) -> bool {
    |f: Failure| match f {
        Failure::LookupShape { row } => row == u.row,
        Failure::Lookup { name, row } => row == u.row && u.lookup < cs.lookups@.len() && name@
            == cs.lookups@[u.lookup as int].name@,
        _ => false,
    }
}

/// The failure reports a broken binding of public slot `slot`.
pub open spec fn names_slot(slot: usize) -> spec_fn(Failure) -> bool {
    |f: Failure| f matches Failure::Public { slot: s, .. } && s == slot
}

/// The failure reports a cell with no known value.
pub open spec fn names_unknown() -> spec_fn(Failure) -> bool {
    |f: Failure| f is Unknown
}

/// The row of a cell, zero for a handle past the end.
pub open spec fn row_of(a: &Assignment, c: usize) -> usize {
    if c < a.cells@.len() {
        a.cells@[c as int].row
    } else {
        0
    }
}

/// The failure names a copy constraint by the rows of its two cells.
pub open spec fn names_copy(a: &Assignment, c: (usize, usize)) -> spec_fn(Failure) -> bool {
    |f: Failure| f == Failure::Copy { row_a: row_of(a, c.0), row_b: row_of(a, c.1) }
}

/// The failure names a binding by its public slot and the row of its cell.
pub open spec fn names_public(a: &Assignment, p: (usize, usize)) -> spec_fn(Failure) -> bool {
    |f: Failure| f == Failure::Public { slot: p.1, row: row_of(a, p.0) }
}

/// The failure names some unknown cell of the assignment.
pub open spec fn names_some_unknown(a: &Assignment, f: Failure) -> bool {
    exists|i: int| 0 <= i < a.cells@.len() && (#[trigger] a.cells@[i]).value is Unknown && names_cell(a.cells@[i])(f)
}

/// The failure reports a constraint the assignment does violate.
pub open spec fn genuine(cs: &ConstraintSystem, a: &Assignment, instance: Seq<Fe>, f: Failure) -> bool {
    match f {
        Failure::Unknown { .. } => names_some_unknown(a, f),
        Failure::GateShape { .. } => exists|i: int|
            0 <= i < a.gate_uses@.len() && !gate_use_holds(cs, a, #[trigger] &a.gate_uses@[i]) && names_gate(
                cs,
                &a.gate_uses@[i],
            )(f),
        Failure::Gate { .. } => exists|i: int|
            0 <= i < a.gate_uses@.len() && !gate_use_holds(cs, a, #[trigger] &a.gate_uses@[i]) && names_gate(
                cs,
                &a.gate_uses@[i],
            )(f),
        Failure::LookupShape { .. } => exists|i: int|
            0 <= i < a.lookup_uses@.len() && !lookup_use_holds(cs, a, #[trigger] &a.lookup_uses@[i])
                && names_lookup(cs, &a.lookup_uses@[i])(f),
        Failure::Lookup { .. } => exists|i: int|
            0 <= i < a.lookup_uses@.len() && !lookup_use_holds(cs, a, #[trigger] &a.lookup_uses@[i])
                && names_lookup(cs, &a.lookup_uses@[i])(f),
        Failure::Copy { .. } => exists|i: int|
            0 <= i < a.copies@.len() && !copy_holds(a, #[trigger] a.copies@[i]) && names_copy(a, a.copies@[i])(f),
        Failure::Public { .. } => exists|i: int|
            0 <= i < a.publics@.len() && !public_holds(a, #[trigger] a.publics@[i], instance) && names_public(
                a,
                a.publics@[i],
            )(f),
    }
}

fn check_cells(a: &Assignment, failures: &mut Vec<Failure>) -> (ok: bool)
    ensures
        ok == forall|i: int| 0 <= i < a.cells@.len() ==> (#[trigger] a.cells@[i]).value is Known,
        starts(old(failures)@, final(failures)@),
        forall|i: int| 0 <= i < a.cells@.len() && (#[trigger] a.cells@[i]).value is Unknown ==> listed(
            final(failures)@,
            names_cell(a.cells@[i]),
        ),
        ok ==> final(failures)@ == old(failures)@,
        forall|j: int| old(failures)@.len() <= j < final(failures)@.len() ==> names_some_unknown(a, #[trigger] final(failures)@[j]),
{
    let mut ok = true;
    let mut i: usize = 0;
    while i < a.cells.len()
        invariant
            i <= a.cells@.len(),
            ok == forall|k: int| 0 <= k < i ==> (#[trigger] a.cells@[k]).value is Known,
            starts(old(failures)@, failures@),
            forall|k: int| 0 <= k < i && (#[trigger] a.cells@[k]).value is Unknown ==> listed(
                failures@,
                names_cell(a.cells@[k]),
            ),
            ok ==> failures@ == old(failures)@,
            forall|j: int| old(failures)@.len() <= j < failures@.len() ==> names_some_unknown(a, #[trigger] failures@[j]),
        decreases a.cells@.len() - i,
    {
        if matches!(a.cells[i].value, Value::Unknown) {
            let ghost before = failures@;
            failures.push(Failure::Unknown { column: a.cells[i].column, row: a.cells[i].row });
            proof {
                lemma_listed_kept(before, failures@);
                assert(names_cell(a.cells@[i as int])(failures@[before.len() as int]));
                assert(names_some_unknown(a, failures@[before.len() as int]));
                assert forall|j: int| old(failures)@.len() <= j < failures@.len() implies names_some_unknown(a, #[trigger] failures@[j]) by {
                    if j < before.len() {
                        assert(failures@[j] == before[j]);
                    }
                }
            }
            ok = false;
        }
        i = i + 1;
    }
    ok
}

fn check_gate_use(cs: &ConstraintSystem, a: &Assignment, u: &GateUse, failures: &mut Vec<Failure>) -> (ok: bool)
    ensures
        ok == gate_use_holds(cs, a, u),
        starts(old(failures)@, final(failures)@),
        !ok ==> listed(final(failures)@, names_gate(cs, u)),
        ok ==> final(failures)@ == old(failures)@,
        forall|j: int| old(failures)@.len() <= j < final(failures)@.len() ==> !gate_use_holds(cs, a, u)
            && names_gate(cs, u)(#[trigger] final(failures)@[j]),
{
    if u.gate >= cs.gates.len() || u.args.len() != cs.gates[u.gate].width {
        failures.push(Failure::GateShape { row: u.row });
        assert(names_gate(cs, u)(failures@[failures@.len() - 1]));
        return false;
    }
    let vals = match read_args(a, &u.args) {
        Some(v) => v,
        None => {
            failures.push(Failure::GateShape { row: u.row });
            assert(names_gate(cs, u)(failures@[failures@.len() - 1]));
            return false;
        },
    };
    let gate = &cs.gates[u.gate];
    let zero = Fe::from_u64(0);
    let mut ok = true;
    let mut k: usize = 0;
    while k < gate.polys.len()
        invariant
            k <= gate.polys@.len(),
            vals@ == arg_values(a, u.args@),
            zero.val() == 0,
            u.gate < cs.gates@.len(),
            gate == cs.gates@[u.gate as int],
            ok == forall|m: int| 0 <= m < k ==> eval(#[trigger] gate.polys@[m], vals@) == 0,
            starts(old(failures)@, failures@),
            !ok ==> listed(failures@, names_gate(cs, u)),
            ok ==> failures@ == old(failures)@,
            args_known(a, u.args@),
            u.args@.len() == cs.gates@[u.gate as int].width,
            forall|j: int| old(failures)@.len() <= j < failures@.len() ==> !gate_use_holds(cs, a, u)
                && names_gate(cs, u)(#[trigger] failures@[j]),
        decreases gate.polys@.len() - k,
    {
        let v = eval_expr(&gate.polys[k], &vals);
        if !v.equals(&zero) {
            let ghost before = failures@;
            failures.push(Failure::Gate { name: gate.name.clone(), poly: k, row: u.row });
            proof {
                lemma_listed_kept(before, failures@);
                assert(names_gate(cs, u)(failures@[before.len() as int]));
                assert(!gate_use_holds(cs, a, u));
                assert forall|j: int| old(failures)@.len() <= j < failures@.len() implies !gate_use_holds(cs, a, u)
                    && names_gate(cs, u)(#[trigger] failures@[j]) by {
                    if j < before.len() {
                        assert(failures@[j] == before[j]);
                    }
                }
            }
            ok = false;
        }
        k = k + 1;
    }
    ok
}

fn check_row(row: &Vec<Fe>, vals: &Vec<Fe>) -> (r: bool)
    ensures
        r == row_matches(row@, vals@),
{
    if row.len() != vals.len() {
        return false;
    }
    let mut j: usize = 0;
    while j < row.len()
        invariant
            j <= row@.len(),
            row@.len() == vals@.len(),
            forall|m: int| 0 <= m < j ==> #[trigger] row@[m].val() == vals@[m].val(),
        decreases row@.len() - j,
    {
        if !row[j].equals(&vals[j]) {
            return false;
        }
        j = j + 1;
    }
    true
}

fn check_table(t: &Table, vals: &Vec<Fe>) -> (r: bool)
    ensures
        r == in_table(t, vals@),
{
    let mut i: usize = 0;
    while i < t.rows.len()
        invariant
            i <= t.rows@.len(),
            forall|m: int| 0 <= m < i ==> !row_matches(#[trigger] t.rows@[m]@, vals@),
        decreases t.rows@.len() - i,
    {
        if check_row(&t.rows[i], vals) {
            return true;
        }
        i = i + 1;
    }
    false
}

fn check_lookup_use(cs: &ConstraintSystem, a: &Assignment, u: &LookupUse, failures: &mut Vec<Failure>) -> (ok: bool)
    ensures
        ok == lookup_use_holds(cs, a, u),
        starts(old(failures)@, final(failures)@),
        !ok ==> listed(final(failures)@, names_lookup(cs, u)),
        ok ==> final(failures)@ == old(failures)@,
        forall|j: int| old(failures)@.len() <= j < final(failures)@.len() ==> !lookup_use_holds(cs, a, u)
            && names_lookup(cs, u)(#[trigger] final(failures)@[j]),
{
    if u.lookup >= cs.lookups.len() || u.args.len() != cs.lookups[u.lookup].width {
        failures.push(Failure::LookupShape { row: u.row });
        assert(names_lookup(cs, u)(failures@[failures@.len() - 1]));
        return false;
    }
    let vals = match read_args(a, &u.args) {
        Some(v) => v,
        None => {
            failures.push(Failure::LookupShape { row: u.row });
            assert(names_lookup(cs, u)(failures@[failures@.len() - 1]));
            return false;
        },
    };
    let mut t: usize = 0;
    while t < a.tables.len()
        invariant
            t <= a.tables@.len(),
            vals@ == arg_values(a, u.args@),
            forall|m: int|
                0 <= m < t ==> !((#[trigger] a.tables@[m]).lookup == u.lookup && in_table(
                    &a.tables@[m],
                    vals@,
                )),
            failures@ == old(failures)@,
            args_known(a, u.args@),
            u.lookup < cs.lookups@.len(),
            u.args@.len() == cs.lookups@[u.lookup as int].width,
        decreases a.tables@.len() - t,
    {
        if a.tables[t].lookup == u.lookup && check_table(&a.tables[t], &vals) {
            assert(a.tables@[t as int].lookup == u.lookup);
            return true;
        }
        t = t + 1;
    }
    failures.push(Failure::Lookup { name: cs.lookups[u.lookup].name.clone(), row: u.row });
    assert(names_lookup(cs, u)(failures@[failures@.len() - 1]));
    false
}

/// Replays an assignment against a constraint system and a public input
/// vector. It succeeds exactly when every constraint holds. Otherwise it
/// lists the violations: each unknown cell, each violated gate or lookup use
/// with its name and row, each broken copy constraint and public binding.
pub fn verify(cs: &ConstraintSystem, a: &Assignment, instance: &Vec<Fe>) -> (r: Result<(), Vec<Failure>>)
    ensures
        r.is_ok() == satisfied(cs, a, instance@),
        r matches Err(v) ==> v@.len() > 0,
        r matches Err(v) ==> forall|j: int| 0 <= j < v@.len() ==> genuine(cs, a, instance@, #[trigger] v@[j]),
        r matches Err(v) ==> forall|i: int| 0 <= i < a.cells@.len() && (#[trigger] a.cells@[i]).value is Unknown
            ==> listed(v@, names_cell(a.cells@[i])),
        r matches Err(v) ==> forall|i: int| 0 <= i < a.gate_uses@.len() && !gate_use_holds(cs, a, #[trigger] &a.gate_uses@[i])
            ==> listed(v@, names_gate(cs, &a.gate_uses@[i])),
        r matches Err(v) ==> forall|i: int| 0 <= i < a.lookup_uses@.len() && !lookup_use_holds(cs, a, #[trigger] &a.lookup_uses@[i])
            ==> listed(v@, names_lookup(cs, &a.lookup_uses@[i])),
        r matches Err(v) ==> forall|i: int| 0 <= i < a.copies@.len() && !copy_holds(a, #[trigger] a.copies@[i])
            ==> listed(v@, names_copy(a, a.copies@[i])),
        r matches Err(v) ==> forall|i: int| 0 <= i < a.publics@.len() && !public_holds(a, #[trigger] a.publics@[i], instance@)
            ==> listed(v@, names_public(a, a.publics@[i])),
{
    let mut failures: Vec<Failure> = Vec::new();
    let cells_ok = check_cells(a, &mut failures);
    let ghost f1 = failures@;
    proof {
        assert forall|j: int| 0 <= j < failures@.len() implies genuine(cs, a, instance@, #[trigger] failures@[j]) by {
            assert(names_some_unknown(a, failures@[j]));
        }
    }

    let mut gates_ok = true;
    let mut i: usize = 0;
    while i < a.gate_uses.len()
        invariant
            forall|j: int| 0 <= j < failures@.len() ==> genuine(cs, a, instance@, #[trigger] failures@[j]),
            i <= a.gate_uses@.len(),
            gates_ok == forall|k: int| 0 <= k < i ==> gate_use_holds(cs, a, #[trigger] &a.gate_uses@[k]),
            starts(f1, failures@),
            !cells_ok ==> failures@.len() > 0,
            !gates_ok ==> failures@.len() > 0,
            forall|k: int| 0 <= k < i && !gate_use_holds(cs, a, #[trigger] &a.gate_uses@[k])
                ==> listed(failures@, names_gate(cs, &a.gate_uses@[k])),
        decreases a.gate_uses@.len() - i,
    {
        let ghost before = failures@;
        let ok = check_gate_use(cs, a, &a.gate_uses[i], &mut failures);
        proof {
            assert forall|j: int| 0 <= j < failures@.len() implies genuine(cs, a, instance@, #[trigger] failures@[j]) by {
                if j < before.len() {
                    assert(failures@[j] == before[j]);
                } else {
                    assert(!gate_use_holds(cs, a, &a.gate_uses@[i as int]));
                    assert(names_gate(cs, &a.gate_uses@[i as int])(failures@[j]));
                }
            }
        }
        if !ok {
            gates_ok = false;
        }
        proof {
            lemma_listed_kept(before, failures@);
            lemma_starts_trans(f1, before, failures@);
        }
        i = i + 1;
    }
    let ghost f2 = failures@;

    let mut lookups_ok = true;
    let mut i: usize = 0;
    while i < a.lookup_uses.len()
        invariant
            forall|j: int| 0 <= j < failures@.len() ==> genuine(cs, a, instance@, #[trigger] failures@[j]),
            i <= a.lookup_uses@.len(),
            lookups_ok == forall|k: int| 0 <= k < i ==> lookup_use_holds(cs, a, #[trigger] &a.lookup_uses@[k]),
            starts(f2, failures@),
            !cells_ok ==> failures@.len() > 0,
            !gates_ok ==> failures@.len() > 0,
            !lookups_ok ==> failures@.len() > 0,
            forall|k: int| 0 <= k < i && !lookup_use_holds(cs, a, #[trigger] &a.lookup_uses@[k])
                ==> listed(failures@, names_lookup(cs, &a.lookup_uses@[k])),
        decreases a.lookup_uses@.len() - i,
    {
        let ghost before = failures@;
        let ok = check_lookup_use(cs, a, &a.lookup_uses[i], &mut failures);
        proof {
            assert forall|j: int| 0 <= j < failures@.len() implies genuine(cs, a, instance@, #[trigger] failures@[j]) by {
                if j < before.len() {
                    assert(failures@[j] == before[j]);
                } else {
                    assert(!lookup_use_holds(cs, a, &a.lookup_uses@[i as int]));
                    assert(names_lookup(cs, &a.lookup_uses@[i as int])(failures@[j]));
                }
            }
        }
        if !ok {
            lookups_ok = false;
        }
        proof {
            lemma_listed_kept(before, failures@);
            lemma_starts_trans(f2, before, failures@);
        }
        i = i + 1;
    }
    let ghost f3 = failures@;

    let mut copies_ok = true;
    let mut i: usize = 0;
    while i < a.copies.len()
        invariant
            forall|j: int| 0 <= j < failures@.len() ==> genuine(cs, a, instance@, #[trigger] failures@[j]),
            i <= a.copies@.len(),
            copies_ok == forall|k: int| 0 <= k < i ==> copy_holds(a, #[trigger] a.copies@[k]),
            starts(f3, failures@),
            !cells_ok ==> failures@.len() > 0,
            !gates_ok ==> failures@.len() > 0,
            !lookups_ok ==> failures@.len() > 0,
            !copies_ok ==> failures@.len() > 0,
            forall|k: int| 0 <= k < i && !copy_holds(a, #[trigger] a.copies@[k])
                ==> listed(failures@, names_copy(a, a.copies@[k])),
        decreases a.copies@.len() - i,
    {
        let (x, y) = a.copies[i];
        let holds = if x < a.cells.len() && y < a.cells.len() {
            match (a.cells[x].value, a.cells[y].value) {
                (Value::Known(p), Value::Known(q)) => p.equals(&q),
                _ => false,
            }
        } else {
            false
        };
        if !holds {
            let row_a = if x < a.cells.len() { a.cells[x].row } else { 0 };
            let row_b = if y < a.cells.len() { a.cells[y].row } else { 0 };
            let ghost before = failures@;
            failures.push(Failure::Copy { row_a, row_b });
            proof {
                lemma_listed_kept(before, failures@);
                lemma_starts_trans(f3, before, failures@);
                assert(names_copy(a, a.copies@[i as int])(failures@[before.len() as int]));
                assert(!copy_holds(a, a.copies@[i as int]));
                assert forall|j: int| 0 <= j < failures@.len() implies genuine(cs, a, instance@, #[trigger] failures@[j]) by {
                    if j < before.len() {
                        assert(failures@[j] == before[j]);
                    }
                }
            }
            copies_ok = false;
        }
        i = i + 1;
    }
    let ghost f4 = failures@;

    let mut publics_ok = true;
    let mut i: usize = 0;
    while i < a.publics.len()
        invariant
            forall|j: int| 0 <= j < failures@.len() ==> genuine(cs, a, instance@, #[trigger] failures@[j]),
            i <= a.publics@.len(),
            publics_ok == forall|k: int| 0 <= k < i ==> public_holds(a, #[trigger] a.publics@[k], instance@),
            starts(f4, failures@),
            !cells_ok ==> failures@.len() > 0,
            !gates_ok ==> failures@.len() > 0,
            !lookups_ok ==> failures@.len() > 0,
            !copies_ok ==> failures@.len() > 0,
            !publics_ok ==> failures@.len() > 0,
            forall|k: int| 0 <= k < i && !public_holds(a, #[trigger] a.publics@[k], instance@)
                ==> listed(failures@, names_public(a, a.publics@[k])),
        decreases a.publics@.len() - i,
    {
        let (c, slot) = a.publics[i];
        let holds = if c < a.cells.len() && slot < instance.len() {
            match a.cells[c].value {
                Value::Known(p) => p.equals(&instance[slot]),
                Value::Unknown => false,
            }
        } else {
            false
        };
        if !holds {
            let row = if c < a.cells.len() { a.cells[c].row } else { 0 };
            let ghost before = failures@;
            failures.push(Failure::Public { slot, row });
            proof {
                lemma_listed_kept(before, failures@);
                lemma_starts_trans(f4, before, failures@);
                assert(names_public(a, a.publics@[i as int])(failures@[before.len() as int]));
                assert(!public_holds(a, a.publics@[i as int], instance@));
                assert forall|j: int| 0 <= j < failures@.len() implies genuine(cs, a, instance@, #[trigger] failures@[j]) by {
                    if j < before.len() {
                        assert(failures@[j] == before[j]);
                    }
                }
            }
            publics_ok = false;
        }
        i = i + 1;
    }
    proof {
        lemma_listed_kept(f1, failures@);
        lemma_listed_kept(f2, failures@);
        lemma_listed_kept(f3, failures@);
        lemma_listed_kept(f4, failures@);
    }

    if cells_ok && gates_ok && lookups_ok && copies_ok && publics_ok {
        Ok(())
    } else {
        Err(failures)
    }
}

/// Starting is transitive.
pub proof fn lemma_starts_trans(x: Seq<Failure>, y: Seq<Failure>, z: Seq<Failure>)
    requires
        starts(x, y),
        starts(y, z),
    ensures
        starts(x, z),
{
    assert forall|j: int| 0 <= j < x.len() implies z[j] == #[trigger] x[j] by {
        assert(y[j] == x[j]);
    }
}

} // verus!
