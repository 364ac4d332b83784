//! Arithmetic in the prime field of order `PRIME` (the Mersenne prime 2^61 - 1).
use vstd::arithmetic::div_mod::*;
use vstd::arithmetic::mul::*;
use vstd::arithmetic::power::*;
use crate::primality::lemma_fermat;
use vstd::prelude::*;

verus! {

/// The modulus every computation wraps around.
pub const PRIME: u64 = 2_305_843_009_213_693_951;

/// The modulus as a mathematical integer.
pub open spec fn p() -> int {
    PRIME as int
}

/// Field addition on integers.
pub open spec fn fadd(a: int, b: int) -> int {
    (a + b) % p()
}

/// Field multiplication on integers.
pub open spec fn fmul(a: int, b: int) -> int {
    (a * b) % p()
}

/// Field subtraction, as computed for a minuend `a` and a subtrahend `b`.
pub open spec fn fsub(a: int, b: int) -> int {
    (a + p() - b) % p()
}

/// `a` raised to `e`, reduced modulo the prime.
pub open spec fn fpow(a: int, e: nat) -> int {
    pow(a, e) % p()
}

/// What `inverse` computes: `a^(PRIME-2)` modulo the prime.
pub open spec fn finv(a: int) -> int {
    fpow(a, (p() - 2) as nat)
}

/// An element of the prime field.
#[derive(Debug, Clone, Copy, PartialEq, Eq, Structural)]
pub struct FieldElement {
    pub value: u64,
}

impl FieldElement {
    /// The value is a canonical residue.
    pub open spec fn wf(self) -> bool {
        self.value < PRIME
    }

    /// The residue class of the value.
    pub open spec fn residue(self) -> int {
        self.value as int % p()
    }

    /// Creates an element, reducing the value modulo the prime.
    pub fn new(value: u64) -> (r: FieldElement)
        ensures
            r.value == value % PRIME,
            r.wf(),
    {
        FieldElement { value: value % PRIME }
    }

    /// The additive identity.
    pub fn zero() -> (r: FieldElement)
        ensures
            r.value == 0,
            r.wf(),
    {
        FieldElement { value: 0 }
    }

    /// The multiplicative identity.
    pub fn one() -> (r: FieldElement)
        ensures
            r.value == 1,
            r.wf(),
    {
        FieldElement { value: 1 }
    }

    /// `(self + other) mod PRIME`.
    pub fn add(&self, other: &FieldElement) -> (r: FieldElement)
        ensures
            r.value == fadd(self.value as int, other.value as int),
            r.wf(),
    {
        let result = (self.value as u128 + other.value as u128) % (PRIME as u128);
        FieldElement::new(result as u64)
    }

    /// `(self - other) mod PRIME`, computed as `(self + PRIME - other) mod PRIME`.
    pub fn sub(&self, other: &FieldElement) -> (r: FieldElement)
        requires
            other.value <= self.value + PRIME,
        ensures
            r.value == fsub(self.value as int, other.value as int),
            r.wf(),
    {
        let result = (self.value as u128 + PRIME as u128 - other.value as u128) % (PRIME as u128);
        FieldElement::new(result as u64)
    }

    /// `(self * other) mod PRIME`.
    pub fn mul(&self, other: &FieldElement) -> (r: FieldElement)
        ensures
            r.value == fmul(self.value as int, other.value as int),
            r.wf(),
    {
        let a = self.value as u128;
        let b = other.value as u128;
        proof {
            lemma_mul_upper_bound(a as int, u64::MAX as int, b as int, u64::MAX as int);
            assert(u64::MAX as int * u64::MAX as int <= u128::MAX) by (nonlinear_arith);
        }
        let result = (a * b) % (PRIME as u128);
        FieldElement::new(result as u64)
    }

    /// `self^exponent mod PRIME` by square-and-multiply.
    pub fn pow(&self, exponent: u64) -> (r: FieldElement)
        ensures
            r.value == fpow(self.value as int, exponent as nat),
            r.wf(),
    {
        let mut exponent = exponent;
        let ghost e0 = exponent;
        let mut result = FieldElement::one();
        let mut base = *self;
        proof {
            lemma_pow0(base.value as int);
            lemma_pow1(base.value as int);
        }
        while exponent > 0
            invariant
                result.wf(),
                (result.value as int * pow(base.value as int, exponent as nat)) % p() == pow(
                    self.value as int,
                    e0 as nat,
                ) % p(),
            decreases exponent,
        {
            let ghost r0 = result.value as int;
            let ghost b0 = base.value as int;
            let ghost x0 = exponent;
            if exponent % 2 == 1 {
                result = result.mul(&base);
            }
            base = base.mul(&base);
            exponent = exponent / 2;
            proof {
                lemma_square_and_multiply_step(r0, b0, x0 as nat, result.value as int, base.value as int);
            }
        }
        proof {
            lemma_pow0(base.value as int);
            lemma_small_mod(result.value as nat, PRIME as nat);
        }
        result
    }

    /// The multiplicative inverse, by Fermat: `self^(PRIME-2)`.
    pub fn inverse(&self) -> (r: FieldElement)
        requires
            self.value != 0,
        ensures
            r.value == finv(self.value as int),
            r.wf(),
    {
        self.pow(PRIME - 2)
    }

    /// `self * other^(PRIME-2)`: division by `other`.
    pub fn div(&self, other: &FieldElement) -> (r: FieldElement)
        requires
            other.value != 0,
        ensures
            r.value == fmul(self.value as int, finv(other.value as int)),
            r.wf(),
    {
        let inv = other.inverse();
        self.mul(&inv)
    }

    /// Whether the value is zero.
    pub fn is_zero(&self) -> (r: bool)
        ensures
            r == (self.value == 0),
    {
        self.value == 0
    }
}

/// Two integers are congruent modulo the prime.
pub open spec fn cong(a: int, b: int) -> bool {
    a % p() == b % p()
}

pub(crate) proof fn lemma_cong_reduce(a: int)
    ensures
        cong(a % p(), a),
        0 <= a % p() < p(),
{
    lemma_mod_twice(a, p());
    lemma_mod_bound(a, p());
}

pub(crate) proof fn lemma_cong_add(a: int, b: int, c: int, d: int)
    requires
        cong(a, b),
        cong(c, d),
    ensures
        cong(a + c, b + d),
{
    lemma_add_mod_noop(a, c, p());
    lemma_add_mod_noop(b, d, p());
}

pub(crate) proof fn lemma_cong_sub(a: int, b: int, c: int, d: int)
    requires
        cong(a, b),
        cong(c, d),
    ensures
        cong(a - c, b - d),
{
    lemma_sub_mod_noop(a, c, p());
    lemma_sub_mod_noop(b, d, p());
}

pub(crate) proof fn lemma_cong_mul(a: int, b: int, c: int, d: int)
    requires
        cong(a, b),
        cong(c, d),
    ensures
        cong(a * c, b * d),
{
    lemma_mul_mod_noop(a, c, p());
    lemma_mul_mod_noop(b, d, p());
}

pub(crate) proof fn lemma_cong_multiple(a: int, k: int)
    ensures
        cong(a + k * p(), a),
{
    lemma_mod_multiples_vanish(k, a, p());
    assert(k * p() + a == a + k * p());
}

/// Reduced values that are congruent are equal.
pub(crate) proof fn lemma_cong_canonical(a: int, b: int)
    requires
        cong(a, b),
        0 <= a < p(),
        0 <= b < p(),
    ensures
        a == b,
{
    lemma_small_mod(a as nat, p() as nat);
    lemma_small_mod(b as nat, p() as nat);
}

/// Adding zero leaves a canonical element unchanged: `a + 0 = a`.
pub proof fn lemma_add_zero_identity(a: FieldElement)
    requires
        a.wf(),
    ensures
        fadd(a.value as int, 0) == a.value,
{
    lemma_small_mod(a.value as nat, PRIME as nat);
}

/// Multiplying by one leaves a canonical element unchanged: `a * 1 = a`.
pub proof fn lemma_mul_one_identity(a: FieldElement)
    requires
        a.wf(),
    ensures
        fmul(a.value as int, 1) == a.value,
{
    lemma_small_mod(a.value as nat, PRIME as nat);
}

/// Addition and multiplication do not depend on the order of the operands.
pub proof fn lemma_add_mul_commute(a: FieldElement, b: FieldElement)
    ensures
        fadd(a.value as int, b.value as int) == fadd(b.value as int, a.value as int),
        fmul(a.value as int, b.value as int) == fmul(b.value as int, a.value as int),
{
    lemma_mul_is_commutative(a.value as int, b.value as int);
}

/// Subtracting what was added gives back the canonical starting element: `(a + b) - b = a`.
pub proof fn lemma_sub_undoes_add(a: FieldElement, b: FieldElement)
    requires
        a.wf(),
        b.wf(),
    ensures
        fsub(fadd(a.value as int, b.value as int), b.value as int) == a.value,
{
    let s = fadd(a.value as int, b.value as int);
    lemma_cong_reduce(a.value as int + b.value as int);
    lemma_cong_add(s, a.value as int + b.value as int, p() - b.value, p() - b.value);
    lemma_cong_multiple(a.value as int, 1);
    lemma_cong_reduce(s + p() - b.value);
    lemma_cong_canonical(fsub(s, b.value as int), a.value as int);
}

/// A nonzero element times its inverse is one: `a * a^(-1) = 1`.
pub proof fn lemma_mul_inverse(a: FieldElement)
    requires
        a.wf(),
        a.value != 0,
    ensures
        fmul(a.value as int, finv(a.value as int)) == 1,
{
    let x = a.value as int;
    let e = (p() - 2) as nat;
    lemma_mul_mod_noop_right(x, pow(x, e), p());
    lemma_pow1(x);
    lemma_pow_adds(x, 1, e);
    assert((1 + e) as nat == (p() - 1) as nat);
    lemma_fermat(x);
}

/// Dividing and then multiplying by the same nonzero element gives back the canonical
/// dividend: `(a / b) * b = a`.
pub proof fn lemma_div_then_mul(a: FieldElement, b: FieldElement)
    requires
        a.wf(),
        b.wf(),
        b.value != 0,
    ensures
        fmul(fmul(a.value as int, finv(b.value as int)), b.value as int) == a.value,
{
    let x = a.value as int;
    let y = b.value as int;
    let i = finv(y);
    lemma_mul_inverse(b);
    lemma_mul_mod_noop_left(x * i, y, p());
    lemma_mul_is_associative(x, i, y);
    lemma_mul_is_commutative(i, y);
    lemma_mul_mod_noop_right(x, i * y, p());
    lemma_mul_is_commutative(y, i);
    assert((i * y) % p() == 1);
    lemma_small_mod(x as nat, p() as nat);
}

/// A nonzero factor cancels: `c * x = c * y` with `c != 0` forces `x = y` for canonical `x`,
/// `y`.
pub proof fn lemma_mul_cancel(c: FieldElement, x: FieldElement, y: FieldElement)
    requires
        c.wf(),
        x.wf(),
        y.wf(),
        c.value != 0,
        fmul(c.value as int, x.value as int) == fmul(c.value as int, y.value as int),
    ensures
        x.value == y.value,
{
    let cv = c.value as int;
    let i = finv(cv);
    lemma_mul_inverse(c);
    // i * (c * x) = (i * c) * x = x, and the same for y
    lemma_undo_mul(cv, i, x.value as int);
    lemma_undo_mul(cv, i, y.value as int);
}

/// Multiplying `c * v` by an inverse `i` of `c` gives back a canonical `v`.
proof fn lemma_undo_mul(cv: int, i: int, v: int)
    requires
        (cv * i) % p() == 1,
        0 <= v < p(),
    ensures
        (i * ((cv * v) % p())) % p() == v,
{
    lemma_mul_mod_noop_right(i, cv * v, p());
    lemma_mul_is_associative(i, cv, v);
    lemma_mul_is_commutative(i, cv);
    lemma_mul_mod_noop_left(i * cv, v, p());
    lemma_small_mod(v as nat, p() as nat);
}

/// One step of square-and-multiply keeps `result * base^exponent` fixed modulo the prime.
proof fn lemma_square_and_multiply_step(r0: int, b0: int, x0: nat, r1: int, b1: int)
    requires
        x0 > 0,
        b1 == (b0 * b0) % p(),
        x0 % 2 == 1 ==> r1 == (r0 * b0) % p(),
        x0 % 2 != 1 ==> r1 == r0,
    ensures
        (r1 * pow(b1, x0 / 2)) % p() == (r0 * pow(b0, x0)) % p(),
{
    let m = p();
    let h = x0 / 2;
    // b0^x0 = (b0^2)^h * b0^(x0 % 2)
    lemma_pow_multiplies(b0, 2, h);
    lemma_square_is_pow2(b0);
    assert(pow(b0, 2) == b0 * b0) by {
        reveal_with_fuel(pow, 3);
    }
    assert(x0 == 2 * h + x0 % 2);
    lemma_pow_adds(b0, 2 * h, x0 % 2);
    // (b1)^h == (b0*b0)^h mod m
    lemma_pow_mod_noop(b0 * b0, h, m);
    let q = pow(b0 * b0, h);
    assert(pow(b0, x0) == q * pow(b0, (x0 % 2) as nat));
    if x0 % 2 == 1 {
        lemma_pow1(b0);
        assert(pow(b0, x0) == q * b0);
        // r1 * b1^h == (r0*b0 % m) * (q % m) mod m == r0 * b0 * q mod m
        lemma_mul_mod_noop_general(r0 * b0, q, m);
        lemma_mul_mod_noop_right(r1, pow(b1, h), m);
        assert((r1 * pow(b1, h)) % m == (r1 * (pow(b1, h) % m)) % m);
        assert(pow(b1, h) % m == q % m);
        assert((r1 * (q % m)) % m == ((r0 * b0) % m * (q % m)) % m);
        assert(((r0 * b0) % m * (q % m)) % m == (r0 * b0 * q) % m);
        assert(r0 * b0 * q == r0 * (q * b0)) by (nonlinear_arith);
    } else {
        lemma_pow0(b0);
        assert(x0 % 2 == 0);
        assert(pow(b0, x0) == q);
        lemma_mul_mod_noop_right(r1, pow(b1, h), m);
        lemma_mul_mod_noop_right(r0, q, m);
    }
}

} // verus!
