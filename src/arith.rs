//! The multiply/add/cube chip: three gates, each behind its own handle,
//! chained to compute `((c * a^2 * b^2) + c)^3`.
use crate::circuit::{ColumnKind, shape, Shape, 
    after, arg_values, cell_fe, cell_known, consistent, eval, extends, fits_rows,
    lemma_consistent_extend, lemma_extends_trans, public_holds, publics_hold, two_pow, verify,
    Assignment, ConstraintSystem, Expr, Failure,
};
use crate::merkle::CircuitError;
use crate::field::{lift, reduce, Fe, Value};
use vstd::prelude::*;

verus! {

/// `lhs * rhs - out` over `[lhs, rhs, out]`.
pub open spec fn mul_poly() -> Expr {
    Expr::Diff(
        Box::new(Expr::Product(Box::new(Expr::Arg(0)), Box::new(Expr::Arg(1)))),
        Box::new(Expr::Arg(2)),
    )
}

/// `lhs + rhs - out` over `[lhs, rhs, out]`.
pub open spec fn add_poly() -> Expr {
    Expr::Diff(
        Box::new(Expr::Sum(Box::new(Expr::Arg(0)), Box::new(Expr::Arg(1)))),
        Box::new(Expr::Arg(2)),
    )
}

/// `lhs * lhs * lhs - out` over `[lhs, out]`.
pub open spec fn cube_poly() -> Expr {
    Expr::Diff(
        Box::new(Expr::Product(
            Box::new(Expr::Product(Box::new(Expr::Arg(0)), Box::new(Expr::Arg(0)))),
            Box::new(Expr::Arg(0)),
        )),
        Box::new(Expr::Arg(1)),
    )
}

/// The operation a chip step applies.
#[derive(Clone, Copy, Debug, PartialEq, Eq, Structural)]
pub enum Op {
    Mul,
    Add,
}

/// The columns and gate handles of the chip.
#[derive(Clone, Copy, Debug)]
pub struct ArithConfig {
    pub advice: [usize; 2],
    pub instance: usize,
    pub constant: usize,
    pub s_mul: usize,
    pub s_add: usize,
    pub s_cub: usize,
}

impl ArithConfig {
    pub open spec fn wf(&self, cs: &ConstraintSystem) -> bool {
        &&& self.s_mul < cs.gates@.len()
        &&& cs.gates@[self.s_mul as int].width == 3
        &&& cs.gates@[self.s_mul as int].polys@ == seq![mul_poly()]
        &&& self.s_add < cs.gates@.len()
        &&& cs.gates@[self.s_add as int].width == 3
        &&& cs.gates@[self.s_add as int].polys@ == seq![add_poly()]
        &&& self.s_cub < cs.gates@.len()
        &&& cs.gates@[self.s_cub as int].width == 2
        &&& cs.gates@[self.s_cub as int].polys@ == seq![cube_poly()]
    }
}

/// The value of `((c * (a*b)^2) + c)^3`, reduced after every operation in
/// the order the chip performs them.
pub open spec fn arith_out(a: int, b: int, c: int) -> nat {
    let ab = reduce(a * b) as int;
    let absq = reduce(ab * ab) as int;
    let d = reduce(absq * c) as int;
    let e = reduce(d + c) as int;
    reduce(reduce(e * e) as int * e)
}

/// What one binary step declares: a region of two rows with copies of the
/// operands on the first, the result on the second, and the identity of `op`
/// reading the three.
pub open spec fn binary_shape(s: Shape, cfg: ArithConfig, op: Op, lhs: usize, rhs: usize) -> Shape {
    let base = s.next_row;
    let l = s.positions.len();
    let gate = if op == Op::Mul {
        cfg.s_mul
    } else {
        cfg.s_add
    };
    s.region(2).copy(lhs, cfg.advice@[0], base).copy(rhs, cfg.advice@[1], base).cell(
        cfg.advice@[0],
        after(base, 1),
    ).gate(gate, base, seq![l as usize, (l + 1) as usize, (l + 2) as usize])
}

/// What one cube step declares: a region of one row with a copy of the
/// operand, its cube beside it, and the cube gate reading the two.
pub open spec fn cube_shape(s: Shape, cfg: ArithConfig, lhs: usize) -> Shape {
    let base = s.next_row;
    let l = s.positions.len();
    s.region(1).copy(lhs, cfg.advice@[0], base).cell(cfg.advice@[1], base).gate(
        cfg.s_cub,
        base,
        seq![l as usize, (l + 1) as usize],
    )
}

/// The multiply/add/cube chip.
pub struct ArithChip {
    pub config: ArithConfig,
}

impl ArithChip {
    pub fn construct(config: ArithConfig) -> (r: ArithChip)
        ensures
            r.config == config,
    {
        ArithChip { config }
    }

    /// Registers the three gates over two advice columns.
    pub fn configure(cs: &mut ConstraintSystem) -> (r: ArithConfig)
        ensures
            r.wf(final(cs)),
            r.advice@ == seq![old(cs).columns@.len() as usize, (old(cs).columns@.len() + 1) as usize],
            r.instance == old(cs).columns@.len() + 2,
            r.constant == old(cs).columns@.len() + 3,
            final(cs).columns@ == old(cs).columns@.push(ColumnKind::Advice).push(ColumnKind::Advice).push(
                ColumnKind::Instance,
            ).push(ColumnKind::Fixed),
            r.s_mul == old(cs).gates@.len(),
            r.s_add == old(cs).gates@.len() + 1,
            r.s_cub == old(cs).gates@.len() + 2,
            final(cs).gates@.len() == old(cs).gates@.len() + 3,
            final(cs).gates@[r.s_mul as int].name@ == "mul"@,
            final(cs).gates@[r.s_add as int].name@ == "add"@,
            final(cs).gates@[r.s_cub as int].name@ == "cub"@,
            forall|i: int| 0 <= i < old(cs).gates@.len() ==> final(cs).gates@[i] == #[trigger] old(cs).gates@[i],
            final(cs).lookups@ == old(cs).lookups@,
    {
        let a0 = cs.allocate_column(ColumnKind::Advice);
        let a1 = cs.allocate_column(ColumnKind::Advice);
        let instance = cs.allocate_column(ColumnKind::Instance);
        let constant = cs.allocate_column(ColumnKind::Fixed);
        let mul = Expr::Diff(
            Box::new(Expr::Product(Box::new(Expr::Arg(0)), Box::new(Expr::Arg(1)))),
            Box::new(Expr::Arg(2)),
        );
        let add = Expr::Diff(
            Box::new(Expr::Sum(Box::new(Expr::Arg(0)), Box::new(Expr::Arg(1)))),
            Box::new(Expr::Arg(2)),
        );
        let cub = Expr::Diff(
            Box::new(Expr::Product(
                Box::new(Expr::Product(Box::new(Expr::Arg(0)), Box::new(Expr::Arg(0)))),
                Box::new(Expr::Arg(0)),
            )),
            Box::new(Expr::Arg(1)),
        );
        let s_mul = cs.create_gate(String::from_str("mul"), 3, vec![mul]);
        assert(cs.gates@[s_mul as int].polys@ =~= seq![mul_poly()]);
        let s_add = cs.create_gate(String::from_str("add"), 3, vec![add]);
        assert(cs.gates@[s_add as int].polys@ =~= seq![add_poly()]);
        let s_cub = cs.create_gate(String::from_str("cub"), 2, vec![cub]);
        assert(cs.gates@[s_cub as int].polys@ =~= seq![cube_poly()]);
        ArithConfig { advice: [a0, a1], instance, constant, s_mul, s_add, s_cub }
    }

    /// Copies `lhs` and `rhs` into a fresh row, enables the identity of `op`
    /// there and places the result on the next row. Returns the result cell.
    pub fn binary(&self, cs: &ConstraintSystem, a: &mut Assignment, op: Op, lhs: usize, rhs: usize) -> (out: usize)
        requires
            lhs < old(a).cells@.len(),
            rhs < old(a).cells@.len(),
        ensures
            extends(old(a), final(a)),
            final(a).tables@ == old(a).tables@,
            out < final(a).cells@.len(),
            op == Op::Mul ==> lift(
                old(a).cells@[lhs as int].value,
                old(a).cells@[rhs as int].value,
                final(a).cells@[out as int].value,
                |x: int, y: int| x * y,
            ),
            op == Op::Add ==> lift(
                old(a).cells@[lhs as int].value,
                old(a).cells@[rhs as int].value,
                final(a).cells@[out as int].value,
                |x: int, y: int| x + y,
            ),
            final(a).publics@ == old(a).publics@,
            final(a).next_row == after(old(a).next_row, 2),
            shape(final(a)) == binary_shape(shape(old(a)), self.config, op, lhs, rhs),
            out == old(a).cells@.len() + 2,
            self.config.wf(cs) && consistent(cs, old(a)) && cell_known(old(a), lhs)
                && cell_known(old(a), rhs) ==> consistent(cs, final(a)),
    {
        let ghost a0 = *old(a);
        let base = a.region(2);
        let next = base.saturating_add(1);
        let l = a.copy_advice(lhs, self.config.advice[0], base);
        let r = a.copy_advice(rhs, self.config.advice[1], base);
        let (gate, v) = match op {
            Op::Mul => (self.config.s_mul, a.cells[l].value.mul(&a.cells[r].value)),
            Op::Add => (self.config.s_add, a.cells[l].value.add(&a.cells[r].value)),
        };
        let o = a.assign(self.config.advice[0], next, v);
        let args = vec![l, r, o];
        assert(args@ =~= seq![l, r, o]);
        a.enable_gate(gate, base, args);
        proof {
            let an = *a;
            if self.config.wf(cs) && consistent(cs, &a0) && cell_known(&a0, lhs) && cell_known(&a0, rhs) {
                assert(a0.cells@[lhs as int].value is Known);
                let u = &an.gate_uses@[a0.gate_uses@.len() as int];
                assert(u.args@ =~= seq![l, r, o]);
                let vals = arg_values(&an, u.args@);
                assert(vals =~= seq![cell_fe(&an, l), cell_fe(&an, r), cell_fe(&an, o)]);
                reveal_with_fuel(eval, 3);
                if op == Op::Mul {
                    assert(eval(mul_poly(), vals) == 0);
                } else {
                    assert(eval(add_poly(), vals) == 0);
                }
                lemma_consistent_extend(cs, &a0, &an);
            }
        }
        o
    }

    /// Copies `lhs` into a fresh row, enables the cube gate there and places
    /// the cube beside it. Returns the result cell.
    pub fn cube(&self, cs: &ConstraintSystem, a: &mut Assignment, lhs: usize) -> (out: usize)
        requires
            lhs < old(a).cells@.len(),
        ensures
            extends(old(a), final(a)),
            final(a).tables@ == old(a).tables@,
            out < final(a).cells@.len(),
            match old(a).cells@[lhs as int].value {
                Value::Known(x) => final(a).cells@[out as int].value matches Value::Known(y)
                    && y.val() == reduce(reduce(x.val() as int * x.val()) as int * x.val()),
                Value::Unknown => final(a).cells@[out as int].value is Unknown,
            },
            final(a).publics@ == old(a).publics@,
            final(a).next_row == after(old(a).next_row, 1),
            shape(final(a)) == cube_shape(shape(old(a)), self.config, lhs),
            out == old(a).cells@.len() + 1,
            self.config.wf(cs) && consistent(cs, old(a)) && cell_known(old(a), lhs) ==> consistent(cs, final(a)),
    {
        let ghost a0 = *old(a);
        let base = a.region(1);
        let l = a.copy_advice(lhs, self.config.advice[0], base);
        let x = a.cells[l].value;
        let v = x.mul(&x).mul(&x);
        let o = a.assign(self.config.advice[1], base, v);
        let args = vec![l, o];
        assert(args@ =~= seq![l, o]);
        a.enable_gate(self.config.s_cub, base, args);
        proof {
            let an = *a;
            if self.config.wf(cs) && consistent(cs, &a0) && cell_known(&a0, lhs) {
                let u = &an.gate_uses@[a0.gate_uses@.len() as int];
                assert(u.args@ =~= seq![l, o]);
                let vals = arg_values(&an, u.args@);
                assert(vals =~= seq![cell_fe(&an, l), cell_fe(&an, o)]);
                reveal_with_fuel(eval, 4);
                assert(eval(cube_poly(), vals) == 0);
                lemma_consistent_extend(cs, &a0, &an);
            }
        }
        o
    }

    /// Loads `a`, `b` and the constant `c`, then computes
    /// `d = a*b * a*b * c`, `e = d + c` and `out = e^3`, one step per region,
    /// threading each result by copy constraints. Returns the cell of `out`.
    pub fn assign(&self, cs: &ConstraintSystem, a: &mut Assignment, av: Value, bv: Value, c: Fe) -> (out: usize)
        ensures
            extends(old(a), final(a)),
            final(a).tables@ == old(a).tables@,
            out < final(a).cells@.len(),
            final(a).publics@ == old(a).publics@,
            final(a).next_row == after(old(a).next_row, 12),
            match (av, bv) {
                (Value::Known(x), Value::Known(y)) => final(a).cells@[out as int].value matches Value::Known(z)
                    && z.val() == arith_out(x.val() as int, y.val() as int, c.val() as int),
                _ => final(a).cells@[out as int].value is Unknown,
            },
            self.config.wf(cs) && consistent(cs, old(a)) && av is Known && bv is Known ==> consistent(cs, final(a)),
    {
        let ghost a0 = *old(a);
        let base = a.region(3);
        let ca = a.assign(self.config.advice[0], base, av);
        let cb = a.assign(self.config.advice[0], base.saturating_add(1), bv);
        let cc = a.assign(self.config.advice[0], base.saturating_add(2), Value::Known(c));
        let ghost a1 = *a;
        proof {
            if self.config.wf(cs) && consistent(cs, &a0) && av is Known && bv is Known {
                lemma_consistent_extend(cs, &a0, &a1);
            }
        }
        let ab = self.binary(cs, a, Op::Mul, ca, cb);
        let ghost a2 = *a;
        assert(a2.cells@[cc as int] == a1.cells@[cc as int]);
        let absq = self.binary(cs, a, Op::Mul, ab, ab);
        let ghost a3 = *a;
        assert(a3.cells@[cc as int] == a2.cells@[cc as int]);
        let d = self.binary(cs, a, Op::Mul, absq, cc);
        let ghost a4 = *a;
        assert(a4.cells@[cc as int] == a3.cells@[cc as int]);
        let e = self.binary(cs, a, Op::Add, d, cc);
        let ghost a5 = *a;
        let out = self.cube(cs, a, e);
        proof {
            lemma_extends_trans(&a0, &a1, &a2);
            lemma_extends_trans(&a0, &a2, &a3);
            lemma_extends_trans(&a0, &a3, &a4);
            lemma_extends_trans(&a0, &a4, &a5);
            lemma_extends_trans(&a0, &a5, a);
            if self.config.wf(cs) && consistent(cs, &a0) && av is Known && bv is Known {
                assert(cell_known(&a1, ca));
                assert(cell_known(&a1, cb));
                assert(cell_known(&a2, ab));
                assert(cell_known(&a3, absq));
                assert(cell_known(&a3, cc));
                assert(cell_known(&a4, d));
                assert(cell_known(&a4, cc));
                assert(cell_known(&a5, e));
            }
        }
        out
    }

    /// Binds a cell to a slot of the public input vector.
    pub fn expose_public(&self, a: &mut Assignment, cell: usize, row: usize)
        ensures
            final(a).publics@ == old(a).publics@.push((cell, row)),
            final(a).cells@ == old(a).cells@,
            final(a).gate_uses@ == old(a).gate_uses@,
            final(a).lookup_uses@ == old(a).lookup_uses@,
            final(a).tables@ == old(a).tables@,
            final(a).copies@ == old(a).copies@,
            final(a).next_row == old(a).next_row,
            extends(old(a), final(a)),
    {
        a.constrain_public(cell, row);
    }
}

/// The witness of the chained circuit: two private values and a constant.
/// Public slot 0 holds `((c * a^2 * b^2) + c)^3`.
#[derive(Clone, Copy, Debug)]
pub struct ArithCircuit {
    pub constant: Fe,
    pub a: Value,
    pub b: Value,
}

impl ArithCircuit {
    /// The same circuit with the private values unknown.
    pub fn without_witnesses(&self) -> (r: ArithCircuit)
        ensures
            r.constant == self.constant,
            r.a is Unknown,
            r.b is Unknown,
    {
        ArithCircuit { constant: self.constant, a: Value::Unknown, b: Value::Unknown }
    }

    /// Configures the chip, synthesizes the chain in a grid of `2^k` rows
    /// and checks it against the public input vector. Synthesis fails when
    /// the grid is too small for its twelve rows. With both values known the
    /// check passes exactly when slot 0 holds the chain's result; otherwise
    /// it fails.
    pub fn run(&self, k: u32, instance: &Vec<Fe>) -> (r: Result<Result<(), Vec<Failure>>, CircuitError>)
        ensures
            r.is_ok() == (12 <= two_pow(k as nat)),
            r matches Err(e) ==> e == (CircuitError::NotEnoughRows { k }),
            r matches Ok(v) ==> match (self.a, self.b) {
                (Value::Known(x), Value::Known(y)) => v.is_ok() == (instance@.len() > 0
                    && instance@[0].val() == arith_out(x.val() as int, y.val() as int, self.constant.val() as int)),
                _ => v.is_err(),
            },
    {
        let mut cs = ConstraintSystem::new();
        let config = ArithChip::configure(&mut cs);
        let chip = ArithChip::construct(config);
        let mut a = Assignment::new();
        assert(consistent(&cs, &a));
        let out = chip.assign(&cs, &mut a, self.a, self.b, self.constant);
        let ghost a1 = a;
        chip.expose_public(&mut a, out, 0);
        if !fits_rows(&a, k) {
            return Err(CircuitError::NotEnoughRows { k });
        }
        proof {
            assert(a.publics@ =~= seq![(out, 0usize)]);
            assert(a.cells@ == a1.cells@);
            if self.a is Known && self.b is Known {
                crate::circuit::lemma_consistent_extend(&cs, &a1, &a);
                assert(a.publics@[0] == (out, 0usize));
                if public_holds(&a, (out, 0usize), instance@) {
                    assert(publics_hold(&a, instance@));
                }
                if publics_hold(&a, instance@) {
                    assert(public_holds(&a, a.publics@[0], instance@));
                }
            } else {
                assert(a.cells@[out as int].value is Unknown);
                assert(!consistent(&cs, &a));
            }
        }
        Ok(verify(&cs, &a, instance))
    }
}

} // verus!
