//! Elements of the Pallas base field, held in canonical little-endian form.
use halo2_proofs::pasta::group::ff::PrimeField;
use halo2_proofs::pasta::Fp;
use vstd::prelude::*;

verus! {

/// The prime order of the field.
pub open spec fn modulus() -> nat {
    0x40000000000000000000000000000000224698fc094cf91b992d30ed00000001nat
}

/// The integer that a little-endian byte string denotes.
pub open spec fn le_value(s: Seq<u8>) -> nat
    decreases s.len(),
{
    if s.len() == 0 {
        0
    } else {
        s[0] as nat + 256 * le_value(s.drop_first())
    }
}

/// Reduction of an integer into the field's canonical range.
pub open spec fn reduce(x: int) -> nat {
    (x % (modulus() as int)) as nat
}

/// A field element. Its bytes are always the canonical encoding of a value
/// below the modulus.
#[derive(Clone, Copy, Debug)]
pub struct Fe {
    repr: [u8; 32],
}

impl Fe {
    /// The integer in `0..modulus()` that this element stands for.
    pub closed spec fn val(self) -> nat {
        le_value(self.repr@) % modulus()
    }

    #[verifier::type_invariant]
    closed spec fn canonical(self) -> bool {
        le_value(self.repr@) < modulus()
    }

    /// Every element lies below the modulus.
    pub proof fn lemma_below_modulus(self)
        ensures
            self.val() < modulus(),
    {
    }

    /// The element of value `n`.
    pub fn from_u64(n: u64) -> (r: Fe)
        ensures
            r.val() == n as nat,
    {
        fp_from_u64(n)
    }

    /// The canonical little-endian encoding.
    pub fn to_bytes(&self) -> (r: [u8; 32])
        ensures
            le_value(r@) == self.val(),
    {
        proof {
            use_type_invariant(self);
            vstd::arithmetic::div_mod::lemma_small_mod(le_value(self.repr@), modulus());
        }
        self.repr
    }

    /// The sum modulo the field's prime.
    pub fn add(&self, o: &Fe) -> (r: Fe)
        ensures
            r.val() == reduce(self.val() as int + o.val()),
    {
        fp_add(self, o)
    }

    /// The difference modulo the field's prime.
    pub fn sub(&self, o: &Fe) -> (r: Fe)
        ensures
            r.val() == reduce(self.val() - o.val()),
    {
        fp_sub(self, o)
    }

    /// The product modulo the field's prime.
    pub fn mul(&self, o: &Fe) -> (r: Fe)
        ensures
            r.val() == reduce(self.val() as int * o.val()),
    {
        fp_mul(self, o)
    }

    /// Whether two elements are equal.
    pub fn equals(&self, o: &Fe) -> (r: bool)
        ensures
            r == (self.val() == o.val()),
    {
        fp_eq(self, o)
    }
}

/// Relies on `Fp::from(u64)` and `PrimeField::to_repr`: a `u64` is below the
/// modulus and keeps its value.
#[verifier::external_body]
fn fp_from_u64(n: u64) -> (r: Fe)
    ensures
        r.val() == n as nat,
{
    Fe { repr: Fp::from(n).to_repr() }
}

/// Relies on `PrimeField::from_repr`, `Fp + Fp` and `PrimeField::to_repr`:
/// addition modulo the field's prime.
#[verifier::external_body]
fn fp_add(x: &Fe, y: &Fe) -> (r: Fe)
    ensures
        r.val() == reduce(x.val() as int + y.val()),
{
    let a = Fp::from_repr(x.repr).unwrap();
    let b = Fp::from_repr(y.repr).unwrap();
    Fe { repr: (a + b).to_repr() }
}

/// Relies on `PrimeField::from_repr`, `Fp - Fp` and `PrimeField::to_repr`:
/// subtraction modulo the field's prime.
#[verifier::external_body]
fn fp_sub(x: &Fe, y: &Fe) -> (r: Fe)
    ensures
        r.val() == reduce(x.val() - y.val()),
{
    let a = Fp::from_repr(x.repr).unwrap();
    let b = Fp::from_repr(y.repr).unwrap();
    Fe { repr: (a - b).to_repr() }
}

/// Relies on `PrimeField::from_repr`, `Fp * Fp` and `PrimeField::to_repr`:
/// multiplication modulo the field's prime.
#[verifier::external_body]
fn fp_mul(x: &Fe, y: &Fe) -> (r: Fe)
    ensures
        r.val() == reduce(x.val() as int * y.val()),
{
    let a = Fp::from_repr(x.repr).unwrap();
    let b = Fp::from_repr(y.repr).unwrap();
    Fe { repr: (a * b).to_repr() }
}

/// Relies on `PrimeField::from_repr` and `Fp == Fp`: two elements compare
/// equal exactly when their values do.
#[verifier::external_body]
fn fp_eq(x: &Fe, y: &Fe) -> (r: bool)
    ensures
        r == (x.val() == y.val()),
{
    Fp::from_repr(x.repr).unwrap() == Fp::from_repr(y.repr).unwrap()
}

} // verus!

verus! {

/// A witness value: a known element, or a placeholder that only gives the
/// circuit its shape. Arithmetic on an unknown value gives an unknown value.
#[derive(Clone, Copy, Debug)]
pub enum Value {
    Known(Fe),
    Unknown,
}

/// The value that a binary operation on two witness values yields, given what
/// it does on the two integers.
pub open spec fn lift(a: Value, b: Value, r: Value, f: spec_fn(int, int) -> int) -> bool {
    match (a, b) {
        (Value::Known(x), Value::Known(y)) => r matches Value::Known(z) && z.val() == reduce(
            f(x.val() as int, y.val() as int),
        ),
        _ => r is Unknown,
    }
}

/// The value of a known witness value, none for an unknown one.
pub open spec fn val_of(v: Value) -> Option<nat> {
    match v {
        Value::Known(f) => Some(f.val()),
        Value::Unknown => None,
    }
}

/// Field addition on optional values.
pub open spec fn oadd(a: Option<nat>, b: Option<nat>) -> Option<nat> {
    match (a, b) {
        (Some(x), Some(y)) => Some(reduce(x as int + y)),
        _ => None,
    }
}

/// Field subtraction on optional values.
pub open spec fn osub(a: Option<nat>, b: Option<nat>) -> Option<nat> {
    match (a, b) {
        (Some(x), Some(y)) => Some(reduce(x as int - y)),
        _ => None,
    }
}

/// Field multiplication on optional values.
pub open spec fn omul(a: Option<nat>, b: Option<nat>) -> Option<nat> {
    match (a, b) {
        (Some(x), Some(y)) => Some(reduce(x as int * y)),
        _ => None,
    }
}

impl Value {
    /// The sum, known when both operands are.
    pub fn add(&self, o: &Value) -> (r: Value)
        ensures
            lift(*self, *o, r, |x: int, y: int| x + y),
            val_of(r) == oadd(val_of(*self), val_of(*o)),
    {
        match (self, o) {
            (Value::Known(x), Value::Known(y)) => Value::Known(x.add(y)),
            _ => Value::Unknown,
        }
    }

    /// The difference, known when both operands are.
    pub fn sub(&self, o: &Value) -> (r: Value)
        ensures
            lift(*self, *o, r, |x: int, y: int| x - y),
            val_of(r) == osub(val_of(*self), val_of(*o)),
    {
        match (self, o) {
            (Value::Known(x), Value::Known(y)) => Value::Known(x.sub(y)),
            _ => Value::Unknown,
        }
    }

    /// The product, known when both operands are.
    pub fn mul(&self, o: &Value) -> (r: Value)
        ensures
            lift(*self, *o, r, |x: int, y: int| x * y),
            val_of(r) == omul(val_of(*self), val_of(*o)),
    {
        match (self, o) {
            (Value::Known(x), Value::Known(y)) => Value::Known(x.mul(y)),
            _ => Value::Unknown,
        }
    }
}

} // verus!
