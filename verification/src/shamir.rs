//! Shamir secret sharing: shares are evaluations of a random polynomial whose constant
//! term is the secret; reconstruction is Lagrange interpolation at zero.
use crate::field::{
    cong, fadd, finv, fmul, fsub, lemma_cong_add, lemma_cong_mul, lemma_cong_multiple,
    lemma_cong_reduce, lemma_cong_sub, p, FieldElement, PRIME,
};
use crate::polynomial::{
    lemma_padd, lemma_pmul_lin, lemma_pscale, lemma_roots_vanish, lemma_zero_factor, padd,
    peval, pmul_lin, pscale,
};
use vstd::arithmetic::mul::{lemma_mul_is_associative, lemma_mul_is_commutative};
use crate::random::random_in_range;
use vstd::arithmetic::power::{lemma_pow0, lemma_pow1, pow};
use vstd::prelude::*;

verus! {

/// One point `(x, f(x))` of the sharing polynomial.
#[derive(Debug, Clone, Copy, PartialEq, Eq, Structural)]
pub struct Share {
    pub x: FieldElement,
    pub y: FieldElement,
}

impl Share {
    /// A share at party index `x` with value `y`, both reduced modulo the prime.
    pub fn new(x: u64, y: u64) -> (r: Share)
        ensures
            r.x.value == x % PRIME,
            r.y.value == y % PRIME,
    {
        Share { x: FieldElement::new(x), y: FieldElement::new(y) }
    }
}

/// A field element drawn from `1..PRIME`.
fn random_field_element() -> (r: FieldElement)
    ensures
        1 <= r.value < PRIME,
{
    let value = random_in_range(1, PRIME);
    FieldElement::new(value)
}

/// Horner evaluation `c0 + x*(c1 + x*(c2 + ...))`, reducing at every step.
pub open spec fn horner(cs: Seq<FieldElement>, x: int) -> int
    decreases cs.len(),
{
    if cs.len() == 0 {
        0
    } else {
        fadd(fmul(horner(cs.drop_first(), x), x), cs[0].value as int)
    }
}

/// The polynomial `sum_k cs[k] * x^k` over the integers.
pub open spec fn poly_sum(cs: Seq<FieldElement>, x: int) -> int
    decreases cs.len(),
{
    if cs.len() == 0 {
        0
    } else {
        poly_sum(cs.drop_last(), x) + cs.last().value * pow(x, (cs.len() - 1) as nat)
    }
}

/// Evaluates the polynomial with the given coefficients (lowest degree first) at `x`.
fn evaluate_polynomial(coefficients: &[FieldElement], x: &FieldElement) -> (r: FieldElement)
    ensures
        r.value == horner(coefficients@, x.value as int),
        r.wf(),
{
    let mut result = FieldElement::zero();
    let mut i: usize = coefficients.len();
    proof {
        assert(coefficients@.subrange(i as int, coefficients@.len() as int).len() == 0);
    }
    while i > 0
        invariant
            i <= coefficients@.len(),
            result.value == horner(
                coefficients@.subrange(i as int, coefficients@.len() as int),
                x.value as int,
            ),
            result.wf(),
        decreases i,
    {
        i = i - 1;
        result = result.mul(x).add(&coefficients[i]);
        proof {
            let s = coefficients@.subrange(i as int, coefficients@.len() as int);
            assert(s.drop_first() =~= coefficients@.subrange(
                i as int + 1,
                coefficients@.len() as int,
            ));
            assert(s[0] == coefficients@[i as int]);
        }
    }
    proof {
        assert(coefficients@.subrange(0, coefficients@.len() as int) =~= coefficients@);
    }
    result
}

/// The shares at `x = 1, ..., n` of the polynomial with coefficients `cs`.
pub open spec fn shares_at(cs: Seq<FieldElement>, n: nat) -> Seq<Share> {
    Seq::new(
        n,
        |i: int|
            Share {
                x: FieldElement { value: ((i + 1) % p()) as u64 },
                y: FieldElement { value: horner(cs, (i + 1) % p()) as u64 },
            },
    )
}

/// Evaluates the polynomial with coefficients `coefficients` at `x = 1, ..., total_shares`.
pub fn split_with_coefficients(coefficients: &[FieldElement], total_shares: usize) -> (r: Vec<
    Share,
>)
    ensures
        r@ == shares_at(coefficients@, total_shares as nat),
{
    let mut shares: Vec<Share> = Vec::with_capacity(total_shares);
    let mut i: usize = 1;
    while i <= total_shares
        invariant
            1 <= i,
            i <= total_shares + 1,
            shares@ =~= shares_at(coefficients@, total_shares as nat).take(i - 1),
        decreases total_shares + 1 - i,
    {
        let x = FieldElement::new(i as u64);
        let y = evaluate_polynomial(coefficients, &x);
        shares.push(Share::new(i as u64, y.value));
        proof {
            vstd::arithmetic::div_mod::lemma_small_mod(y.value as nat, PRIME as nat);
        }
        if i == total_shares {
            proof {
                assert(shares@ =~= shares_at(coefficients@, total_shares as nat));
            }
            return shares;
        }
        i = i + 1;
    }
    proof {
        assert(shares@ =~= shares_at(coefficients@, total_shares as nat));
    }
    shares
}

/// Splits `secret` into `total_shares` shares, any `threshold` of which determine it: the
/// shares are the evaluations at `1..=total_shares` of a polynomial of degree
/// `threshold - 1` with constant term `secret` and other coefficients drawn from `1..PRIME`.
pub fn split(secret: u64, threshold: usize, total_shares: usize) -> (r: Vec<Share>)
    requires
        threshold >= 2,
        total_shares >= threshold,
        secret < PRIME,
    ensures
        exists|cs: Seq<FieldElement>|
            {
                &&& cs.len() == threshold
                &&& cs[0].value == secret
                &&& forall|k: int| 1 <= k < threshold ==> 1 <= #[trigger] cs[k].value < PRIME
                &&& r@ == shares_at(cs, total_shares as nat)
            },
{
    let mut coefficients: Vec<FieldElement> = Vec::with_capacity(threshold);
    coefficients.push(FieldElement::new(secret));
    let mut k: usize = 1;
    while k < threshold
        invariant
            1 <= k <= threshold,
            coefficients@.len() == k,
            coefficients@[0].value == secret % PRIME,
            forall|j: int| 1 <= j < k ==> 1 <= #[trigger] coefficients@[j].value < PRIME,
        decreases threshold - k,
    {
        coefficients.push(random_field_element());
        k = k + 1;
    }
    let shares = split_with_coefficients(&coefficients, total_shares);
    proof {
        vstd::arithmetic::div_mod::lemma_small_mod(secret as nat, PRIME as nat);
        assert(coefficients@[0].value == secret);
    }
    shares
}

/// The numerator `y_i * prod_{j < k, j != i} (0 - x_j)` after the first `k` factors.
pub open spec fn lagrange_numerator(s: Seq<Share>, i: int, k: nat) -> int
    decreases k,
{
    if k == 0 {
        s[i].y.value as int
    } else {
        let prev = lagrange_numerator(s, i, (k - 1) as nat);
        if k - 1 == i {
            prev
        } else {
            fmul(prev, fsub(0, s[k - 1].x.value as int))
        }
    }
}

/// The denominator `prod_{j < k, j != i} (x_i - x_j)` after the first `k` factors.
pub open spec fn lagrange_denominator(s: Seq<Share>, i: int, k: nat) -> int
    decreases k,
{
    if k == 0 {
        1
    } else {
        let prev = lagrange_denominator(s, i, (k - 1) as nat);
        if k - 1 == i {
            prev
        } else {
            fmul(prev, fsub(s[i].x.value as int, s[k - 1].x.value as int))
        }
    }
}

/// The `i`-th Lagrange term `numerator / denominator`, division being multiplication by
/// `denominator^(PRIME-2)`.
pub open spec fn lagrange_term(s: Seq<Share>, i: int) -> int {
    fmul(
        lagrange_numerator(s, i, s.len()),
        finv(lagrange_denominator(s, i, s.len())),
    )
}

/// The field sum of the first `k` Lagrange terms.
pub open spec fn lagrange_sum(s: Seq<Share>, k: nat) -> int
    decreases k,
{
    if k == 0 {
        0
    } else {
        fadd(lagrange_sum(s, (k - 1) as nat), lagrange_term(s, k - 1))
    }
}

/// Every denominator is a nonzero element, so each term can be divided out.
pub open spec fn denominators_nonzero(s: Seq<Share>) -> bool {
    forall|i: int| 0 <= i < s.len() ==> #[trigger] lagrange_denominator(s, i, s.len()) != 0
}

/// Lagrange interpolation at zero: `sum_i y_i * prod_{j != i} (0 - x_j) / (x_i - x_j)`.
pub fn reconstruct(shares: &[Share]) -> (r: u64)
    requires
        shares@.len() >= 2,
        forall|j: int| 0 <= j < shares@.len() ==> #[trigger] shares@[j].x.value <= PRIME,
        denominators_nonzero(shares@),
    ensures
        r == lagrange_sum(shares@, shares@.len()),
{
    let n = shares.len();
    let mut secret = FieldElement::zero();
    let mut i: usize = 0;
    while i < n
        invariant
            n == shares@.len(),
            i <= n,
            forall|j: int| 0 <= j < shares@.len() ==> #[trigger] shares@[j].x.value <= PRIME,
            denominators_nonzero(shares@),
            secret.value == lagrange_sum(shares@, i as nat),
        decreases n - i,
    {
        let mut numerator = shares[i].y;
        let mut denominator = FieldElement::one();
        let mut j: usize = 0;
        while j < n
            invariant
                n == shares@.len(),
                i < n,
                j <= n,
                forall|k: int| 0 <= k < shares@.len() ==> #[trigger] shares@[k].x.value <= PRIME,
                numerator.value == lagrange_numerator(shares@, i as int, j as nat),
                denominator.value == lagrange_denominator(shares@, i as int, j as nat),
            decreases n - j,
        {
            if i == j {
                j = j + 1;
                continue;
            }
            let neg_xj = FieldElement::zero().sub(&shares[j].x);
            numerator = numerator.mul(&neg_xj);
            let xi_minus_xj = shares[i].x.sub(&shares[j].x);
            denominator = denominator.mul(&xi_minus_xj);
            j = j + 1;
        }
        proof {
            assert(lagrange_denominator(shares@, i as int, shares@.len()) != 0);
        }
        let term = numerator.div(&denominator);
        secret = secret.add(&term);
        i = i + 1;
    }
    secret.value
}

/// Horner's rule computes the polynomial: the evaluation is `sum_k cs[k] * x^k` modulo the
/// prime.
pub proof fn lemma_horner_is_polynomial(cs: Seq<FieldElement>, x: int)
    ensures
        horner(cs, x) == poly_sum(cs, x) % p(),
    decreases cs.len(),
{
    lemma_horner_shift(cs, x);
    if cs.len() > 0 {
        lemma_cong_reduce(poly_sum(cs, x));
        lemma_cong_reduce(poly_sum_rev(cs, x));
    } else {
        vstd::arithmetic::div_mod::lemma_small_mod(0, p() as nat);
    }
}

/// `sum_k cs[k] x^k`, peeling the lowest coefficient first.
spec fn poly_sum_rev(cs: Seq<FieldElement>, x: int) -> int
    decreases cs.len(),
{
    if cs.len() == 0 {
        0
    } else {
        cs[0].value + x * poly_sum_rev(cs.drop_first(), x)
    }
}

proof fn lemma_poly_sums_agree(cs: Seq<FieldElement>, x: int)
    ensures
        poly_sum(cs, x) == poly_sum_rev(cs, x),
    decreases cs.len(),
{
    if cs.len() > 0 {
        if cs.len() == 1 {
            lemma_pow0(x);
            assert(cs.drop_last().len() == 0);
            assert(cs.drop_first().len() == 0);
            assert(cs.last() == cs[0]);
            assert(poly_sum(cs.drop_last(), x) == 0);
            assert(poly_sum_rev(cs.drop_first(), x) == 0);
            assert(poly_sum(cs, x) == cs[0].value * pow(x, 0));
            assert(poly_sum_rev(cs, x) == cs[0].value + x * 0);
        } else {
            let t = cs.drop_first();
            lemma_poly_sums_agree(cs.drop_last(), x);
            lemma_poly_sums_agree(t, x);
            lemma_poly_sums_agree(t.drop_last(), x);
            assert(cs.drop_last().drop_first() =~= t.drop_last());
            assert(cs.drop_last()[0] == cs[0]);
            assert(t.last() == cs.last());
            // poly_sum_rev(cs.drop_last()) = cs[0] + x * poly_sum_rev(t.drop_last())
            // poly_sum(t) = poly_sum(t.drop_last()) + last * x^(n-2)
            let n = cs.len();
            let e = (n - 2) as nat;
            vstd::arithmetic::power::lemma_pow_adds(x, 1, e);
            lemma_pow1(x);
            assert(pow(x, (n - 1) as nat) == x * pow(x, e)) by {
                assert((n - 1) as nat == 1 + e);
            }
            let l = cs.last().value as int;
            assert(poly_sum_rev(cs.drop_last(), x) == cs[0].value + x * poly_sum_rev(
                t.drop_last(),
                x,
            ));
            assert(poly_sum(t, x) == poly_sum(t.drop_last(), x) + l * pow(x, e));
            assert(poly_sum(cs, x) == poly_sum(cs.drop_last(), x) + l * pow(x, (n - 1) as nat));
            assert(poly_sum_rev(cs, x) == cs[0].value + x * poly_sum_rev(t, x));
            assert(x * (poly_sum(t.drop_last(), x) + l * pow(x, e)) == x * poly_sum(
                t.drop_last(),
                x,
            ) + l * (x * pow(x, e))) by (nonlinear_arith);
        }
    }
}

proof fn lemma_horner_shift(cs: Seq<FieldElement>, x: int)
    ensures
        cong(horner(cs, x), poly_sum(cs, x)),
        0 <= horner(cs, x) < p(),
    decreases cs.len(),
{
    lemma_poly_sums_agree(cs, x);
    if cs.len() == 0 {
    } else {
        let t = cs.drop_first();
        lemma_horner_shift(t, x);
        lemma_poly_sums_agree(t, x);
        let h = horner(t, x);
        lemma_cong_reduce(h * x);
        lemma_cong_mul(h, poly_sum_rev(t, x), x, x);
        lemma_cong_add(fmul(h, x), h * x, cs[0].value as int, cs[0].value as int);
        lemma_cong_reduce(fmul(h, x) + cs[0].value);
        assert(poly_sum_rev(t, x) * x + cs[0].value == cs[0].value + x * poly_sum_rev(t, x))
            by (nonlinear_arith);
        lemma_cong_add(h * x, poly_sum_rev(t, x) * x, cs[0].value as int, cs[0].value as int);
    }
}

/// The sharing polynomial hides the secret in its constant term: evaluating at zero gives
/// back the first coefficient.
pub proof fn lemma_polynomial_at_zero(cs: Seq<FieldElement>)
    requires
        cs.len() > 0,
        cs[0].wf(),
    ensures
        horner(cs, 0) == cs[0].value,
{
    vstd::arithmetic::div_mod::lemma_small_mod(0, p() as nat);
    vstd::arithmetic::div_mod::lemma_small_mod(cs[0].value as nat, p() as nat);
}

} // verus!

verus! {

/// `prod_{j < k, j != i} (x - x_j)` over the integers.
pub open spec fn prod_excl(s: Seq<Share>, i: int, k: nat, x: int) -> int
    decreases k,
{
    if k == 0 {
        1
    } else {
        let prev = prod_excl(s, i, (k - 1) as nat, x);
        if k - 1 == i {
            prev
        } else {
            prev * (x - s[k - 1].x.value)
        }
    }
}

/// The coefficients of `prod_{j < k, j != i} (x - x_j)`.
pub open spec fn basis(s: Seq<Share>, i: int, k: nat) -> Seq<int>
    decreases k,
{
    if k == 0 {
        seq![1int]
    } else {
        let prev = basis(s, i, (k - 1) as nat);
        if k - 1 == i {
            prev
        } else {
            pmul_lin(prev, s[k - 1].x.value as int)
        }
    }
}

/// The weight `y_i / prod_{j != i} (x_i - x_j)` of share `i` among `s`.
pub open spec fn weight(s: Seq<Share>, i: int) -> int {
    s[i].y.value * finv(lagrange_denominator(s, i, s.len()))
}

/// `sum_{i < k} weight_i * prod_{j != i} (x - x_j)` over the integers.
pub open spec fn interp_sum(s: Seq<Share>, k: nat, x: int) -> int
    decreases k,
{
    if k == 0 {
        0
    } else {
        interp_sum(s, (k - 1) as nat, x) + weight(s, k - 1) * prod_excl(s, k - 1, s.len(), x)
    }
}

/// The coefficients of `interp_sum(s, k, x)`.
pub open spec fn interp_poly(s: Seq<Share>, k: nat) -> Seq<int>
    decreases k,
{
    if k == 0 {
        seq![]
    } else {
        padd(interp_poly(s, (k - 1) as nat), pscale(basis(s, k - 1, s.len()), weight(s, k - 1)))
    }
}

proof fn lemma_basis(s: Seq<Share>, i: int, k: nat, x: int)
    requires
        0 <= i,
    ensures
        peval(basis(s, i, k), x) == prod_excl(s, i, k, x),
        basis(s, i, k).len() == if i < k {
            k as int
        } else {
            k + 1int
        },
    decreases k,
{
    if k == 0 {
        assert(seq![1int].drop_first() =~= Seq::<int>::empty());
        assert(peval(Seq::<int>::empty(), x) == 0);
        assert(x * 0 == 0);
        assert(peval(seq![1int], x) == 1 + x * peval(Seq::<int>::empty(), x));
    } else {
        lemma_basis(s, i, (k - 1) as nat, x);
        if k - 1 != i {
            let prev = basis(s, i, (k - 1) as nat);
            lemma_pmul_lin(prev, s[k - 1].x.value as int, x);
            lemma_mul_is_commutative(x - s[k - 1].x.value, prod_excl(s, i, (k - 1) as nat, x));
        }
    }
}

proof fn lemma_interp_poly(s: Seq<Share>, k: nat, x: int)
    requires
        k <= s.len(),
    ensures
        peval(interp_poly(s, k), x) == interp_sum(s, k, x),
        interp_poly(s, k).len() <= s.len(),
    decreases k,
{
    if k > 0 {
        lemma_interp_poly(s, (k - 1) as nat, x);
        let b = basis(s, k - 1, s.len());
        lemma_basis(s, k - 1, s.len(), x);
        lemma_pscale(b, weight(s, k - 1), x);
        lemma_padd(interp_poly(s, (k - 1) as nat), pscale(b, weight(s, k - 1)), x);
    }
}

/// The product vanishes at any other node among its factors.
proof fn lemma_prod_excl_at_node(s: Seq<Share>, i: int, k: nat, j: int)
    requires
        0 <= j < k,
        j != i,
    ensures
        prod_excl(s, i, k, s[j].x.value as int) == 0,
    decreases k,
{
    let x = s[j].x.value as int;
    if j < k - 1 {
        lemma_prod_excl_at_node(s, i, (k - 1) as nat, j);
    }
    if k - 1 != i {
        assert(prod_excl(s, i, k, x) == prod_excl(s, i, (k - 1) as nat, x) * (x - s[k - 1].x.value));
        if j == k - 1 {
            assert(x - s[k - 1].x.value == 0);
        }
    }
}

/// At node `t` only the term of share `t` remains.
proof fn lemma_interp_at_node(s: Seq<Share>, k: nat, t: int)
    requires
        k <= s.len(),
        0 <= t < s.len(),
    ensures
        interp_sum(s, k, s[t].x.value as int) == if t < k {
            weight(s, t) * prod_excl(s, t, s.len(), s[t].x.value as int)
        } else {
            0
        },
    decreases k,
{
    if k > 0 {
        lemma_interp_at_node(s, (k - 1) as nat, t);
        if k - 1 != t {
            lemma_prod_excl_at_node(s, k - 1, s.len(), t);
        }
    }
}

/// The computed denominator is the integer product, modulo the prime.
proof fn lemma_denominator_cong(s: Seq<Share>, i: int, k: nat)
    ensures
        cong(lagrange_denominator(s, i, k), prod_excl(s, i, k, s[i].x.value as int)),
    decreases k,
{
    if k > 0 {
        lemma_denominator_cong(s, i, (k - 1) as nat);
        if k - 1 != i {
            let a = s[i].x.value as int;
            let b = s[k - 1].x.value as int;
            let prev = lagrange_denominator(s, i, (k - 1) as nat);
            lemma_cong_reduce(a + p() - b);
            lemma_cong_multiple(a - b, 1);
            lemma_cong_mul(prev, prod_excl(s, i, (k - 1) as nat, a), fsub(a, b), a - b);
            lemma_cong_reduce(prev * fsub(a, b));
        }
    }
}

/// The computed numerator is `y_i` times the integer product at zero, modulo the prime.
proof fn lemma_numerator_cong(s: Seq<Share>, i: int, k: nat)
    ensures
        cong(lagrange_numerator(s, i, k), s[i].y.value * prod_excl(s, i, k, 0)),
    decreases k,
{
    if k == 0 {
        assert(s[i].y.value * 1 == s[i].y.value);
    } else {
        lemma_numerator_cong(s, i, (k - 1) as nat);
        if k - 1 != i {
            let b = s[k - 1].x.value as int;
            let prev = lagrange_numerator(s, i, (k - 1) as nat);
            let q = prod_excl(s, i, (k - 1) as nat, 0);
            lemma_cong_reduce(0 + p() - b);
            lemma_cong_multiple(0 - b, 1);
            lemma_cong_mul(prev, s[i].y.value * q, fsub(0, b), 0 - b);
            lemma_cong_reduce(prev * fsub(0, b));
            lemma_mul_is_associative(s[i].y.value as int, q, 0 - b);
        }
    }
}

/// The computed Lagrange sum is the interpolant at zero, modulo the prime.
proof fn lemma_sum_cong(s: Seq<Share>, k: nat)
    requires
        k <= s.len(),
    ensures
        cong(lagrange_sum(s, k), interp_sum(s, k, 0)),
    decreases k,
{
    if k > 0 {
        let i = k - 1;
        lemma_sum_cong(s, (k - 1) as nat);
        let n = lagrange_numerator(s, i, s.len());
        let d = lagrange_denominator(s, i, s.len());
        let y = s[i].y.value as int;
        let q = prod_excl(s, i, s.len(), 0);
        lemma_numerator_cong(s, i, s.len());
        lemma_cong_reduce(n * finv(d));
        lemma_cong_mul(n, y * q, finv(d), finv(d));
        assert((y * q) * finv(d) == (y * finv(d)) * q) by (nonlinear_arith);
        lemma_cong_add(
            lagrange_sum(s, (k - 1) as nat),
            interp_sum(s, (k - 1) as nat, 0),
            lagrange_term(s, i),
            weight(s, i) * q,
        );
        lemma_cong_reduce(lagrange_sum(s, (k - 1) as nat) + lagrange_term(s, i));
    }
}

/// Two distinct canonical residues differ by a non-multiple of the prime.
proof fn lemma_distinct_residues(a: int, b: int)
    requires
        0 <= a < p(),
        0 <= b < p(),
        a != b,
    ensures
        !cong(a - b, 0),
{
    vstd::arithmetic::div_mod::lemma_small_mod(0, p() as nat);
    if a > b {
        vstd::arithmetic::div_mod::lemma_small_mod((a - b) as nat, p() as nat);
    } else {
        vstd::arithmetic::div_mod::lemma_mod_add_multiples_vanish(a - b, p());
        vstd::arithmetic::div_mod::lemma_small_mod((a - b + p()) as nat, p() as nat);
    }
}

/// With distinct nodes the product of differences is not a multiple of the prime.
proof fn lemma_prod_nonzero(s: Seq<Share>, i: int, k: nat)
    requires
        0 <= i < s.len(),
        k <= s.len(),
        forall|a: int| 0 <= a < s.len() ==> (#[trigger] s[a]).x.wf(),
        forall|a: int, b: int| 0 <= a < b < s.len() ==> s[a].x.value != s[b].x.value,
    ensures
        !cong(prod_excl(s, i, k, s[i].x.value as int), 0),
    decreases k,
{
    if k == 0 {
        vstd::arithmetic::div_mod::lemma_small_mod(1, p() as nat);
        vstd::arithmetic::div_mod::lemma_small_mod(0, p() as nat);
    } else {
        lemma_prod_nonzero(s, i, (k - 1) as nat);
        if k - 1 != i {
            let a = s[i].x.value as int;
            let b = s[k - 1].x.value as int;
            assert(a != b) by {
                if i < k - 1 {
                    assert(s[i].x.value != s[k - 1].x.value);
                } else {
                    assert(s[k - 1].x.value != s[i].x.value);
                }
            }
            lemma_distinct_residues(a, b);
            let prev = prod_excl(s, i, (k - 1) as nat, a);
            if cong(prev * (a - b), 0) {
                lemma_mul_is_commutative(prev, a - b);
                lemma_zero_factor(a - b, prev);
            }
        }
    }
}

/// Horner evaluation is the integer polynomial of the coefficient values, modulo the prime.
proof fn lemma_horner_cong(cs: Seq<FieldElement>, x: int)
    ensures
        cong(horner(cs, x), peval(cs.map_values(|c: FieldElement| c.value as int), x)),
    decreases cs.len(),
{
    let v = cs.map_values(|c: FieldElement| c.value as int);
    if cs.len() == 0 {
        vstd::arithmetic::div_mod::lemma_small_mod(0, p() as nat);
    } else {
        let t = cs.drop_first();
        assert(v.drop_first() =~= t.map_values(|c: FieldElement| c.value as int));
        lemma_horner_cong(t, x);
        let h = horner(t, x);
        let e = peval(t.map_values(|c: FieldElement| c.value as int), x);
        lemma_cong_mul(h, e, x, x);
        lemma_cong_reduce(h * x);
        lemma_cong_add(fmul(h, x), e * x, cs[0].value as int, cs[0].value as int);
        lemma_cong_reduce(fmul(h, x) + cs[0].value);
        lemma_mul_is_commutative(e, x);
    }
}

/// Lagrange interpolation at zero gives back the secret: for any shares that are points of
/// the sharing polynomial at pairwise distinct `x`, at least as many as it has coefficients,
/// every denominator is nonzero and the Lagrange sum is the constant coefficient.
pub proof fn lemma_interpolation_gives_secret(cs: Seq<FieldElement>, s: Seq<Share>)
    requires
        1 <= cs.len() <= s.len(),
        cs[0].wf(),
        forall|a: int| 0 <= a < s.len() ==> (#[trigger] s[a]).x.wf(),
        forall|a: int|
            0 <= a < s.len() ==> (#[trigger] s[a]).y.value == horner(cs, s[a].x.value as int),
        forall|a: int, b: int| 0 <= a < b < s.len() ==> s[a].x.value != s[b].x.value,
    ensures
        denominators_nonzero(s),
        lagrange_sum(s, s.len()) == cs[0].value,
{
    let m = s.len();
    let fco = cs.map_values(|c: FieldElement| c.value as int);
    vstd::arithmetic::div_mod::lemma_small_mod(0, p() as nat);
    assert forall|i: int| 0 <= i < m implies #[trigger] lagrange_denominator(s, i, m) != 0 by {
        lemma_denominator_cong(s, i, m);
        lemma_prod_nonzero(s, i, m);
    }
    // the interpolant minus the sharing polynomial has a root at every node
    let h = padd(interp_poly(s, m), pscale(fco, -1));
    let rs = s.map_values(|sh: Share| sh.x.value as int);
    lemma_interp_poly(s, m, 0);
    lemma_padd(interp_poly(s, m), pscale(fco, -1), 0);
    assert forall|t: int| 0 <= t < rs.len() implies cong(peval(h, #[trigger] rs[t]), 0) by {
        let x = rs[t];
        assert(x == s[t].x.value);
        lemma_interp_poly(s, m, x);
        lemma_pscale(fco, -1, x);
        lemma_padd(interp_poly(s, m), pscale(fco, -1), x);
        lemma_interp_at_node(s, m, t);
        // weight_t * prod_t is y_t
        let d = lagrange_denominator(s, t, m);
        let q = prod_excl(s, t, m, x);
        let y = s[t].y.value as int;
        lemma_denominator_cong(s, t, m);
        assert(d != 0);
        lemma_denominator_range(s, t, m);
        crate::field::lemma_mul_inverse(FieldElement { value: d as u64 });
        lemma_cong_mul(y * finv(d), y * finv(d), q, d);
        assert((y * finv(d)) * d == y * (d * finv(d))) by (nonlinear_arith);
        lemma_cong_mul(y, y, d * finv(d), 1);
        lemma_cong_reduce(d * finv(d));
        // the polynomial at the node is y_t
        lemma_horner_cong(cs, x);
        lemma_cong_sub(weight(s, t) * q, y, peval(fco, x), y);
    }
    assert forall|i: int, j: int| 0 <= i < j < rs.len() implies !cong(#[trigger] rs[i], #[trigger] rs[j]) by {
        vstd::arithmetic::div_mod::lemma_small_mod(rs[i] as nat, p() as nat);
        vstd::arithmetic::div_mod::lemma_small_mod(rs[j] as nat, p() as nat);
    }
    lemma_pscale(fco, -1, 0);
    assert(h.len() <= m);
    lemma_roots_vanish(h, rs, 0);
    // so the interpolant at zero is the constant coefficient
    assert(peval(fco, 0) == cs[0].value);
    lemma_sum_cong(s, m);
    lemma_cong_add(peval(h, 0), 0, cs[0].value as int, cs[0].value as int);
    lemma_sum_range(s, m);
    crate::field::lemma_cong_canonical(lagrange_sum(s, m), cs[0].value as int);
}

/// Any `cs.len()` or more of the shares that `split` hands out for the coefficients `cs`, at
/// pairwise distinct `x`, reconstruct the constant coefficient, the secret.
pub proof fn lemma_shares_reconstruct_secret(cs: Seq<FieldElement>, n: nat, s: Seq<Share>)
    requires
        1 <= cs.len() <= s.len(),
        cs[0].wf(),
        forall|a: int| 0 <= a < s.len() ==> shares_at(cs, n).contains(#[trigger] s[a]),
        forall|a: int, b: int| 0 <= a < b < s.len() ==> s[a].x.value != s[b].x.value,
    ensures
        denominators_nonzero(s),
        lagrange_sum(s, s.len()) == cs[0].value,
{
    assert forall|a: int| 0 <= a < s.len() implies (#[trigger] s[a]).x.wf() && s[a].y.value
        == horner(cs, s[a].x.value as int) by {
        let sh = shares_at(cs, n);
        let j = choose|j: int| 0 <= j < sh.len() && sh[j] == s[a];
        let x = (j + 1) % p();
        lemma_cong_reduce(j + 1);
        assert(s[a].x.value == x);
        let t = cs.drop_first();
        lemma_cong_reduce(fmul(horner(t, x), x) + cs[0].value);
        assert(s[a].y.value == horner(cs, x));
    }
    lemma_interpolation_gives_secret(cs, s);
}

proof fn lemma_denominator_range(s: Seq<Share>, i: int, k: nat)
    ensures
        0 <= lagrange_denominator(s, i, k) < p(),
    decreases k,
{
    if k == 0 {
    } else {
        lemma_denominator_range(s, i, (k - 1) as nat);
        if k - 1 != i {
            let prev = lagrange_denominator(s, i, (k - 1) as nat);
            lemma_cong_reduce(prev * fsub(s[i].x.value as int, s[k - 1].x.value as int));
        }
    }
}

proof fn lemma_sum_range(s: Seq<Share>, k: nat)
    ensures
        0 <= lagrange_sum(s, k) < p(),
    decreases k,
{
    if k > 0 {
        lemma_cong_reduce(lagrange_sum(s, (k - 1) as nat) + lagrange_term(s, k - 1));
    }
}

} // verus!
