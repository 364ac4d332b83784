//! Polynomials with integer coefficients, lowest degree first, and the fact that a
//! polynomial with fewer coefficients than it has distinct roots modulo the prime vanishes
//! everywhere modulo the prime.
use crate::field::{cong, lemma_mul_cancel, p, FieldElement};
use vstd::arithmetic::div_mod::*;
use vstd::arithmetic::mul::*;
use vstd::prelude::*;

verus! {

/// `cs[0] + x * (cs[1] + x * (...))` over the integers.
pub open spec fn peval(cs: Seq<int>, x: int) -> int
    decreases cs.len(),
{
    if cs.len() == 0 {
        0
    } else {
        cs[0] + x * peval(cs.drop_first(), x)
    }
}

/// Coefficient `k`, zero past the end.
pub open spec fn coef(cs: Seq<int>, k: int) -> int {
    if 0 <= k < cs.len() {
        cs[k]
    } else {
        0
    }
}

/// The coefficientwise sum.
pub open spec fn padd(a: Seq<int>, b: Seq<int>) -> Seq<int> {
    let n = if a.len() >= b.len() {
        a.len()
    } else {
        b.len()
    };
    Seq::new(n, |k: int| coef(a, k) + coef(b, k))
}

/// Every coefficient times `c`.
pub open spec fn pscale(a: Seq<int>, c: int) -> Seq<int> {
    Seq::new(a.len(), |k: int| c * a[k])
}

/// The coefficients of `(x - r) * a(x)`.
pub open spec fn pmul_lin(a: Seq<int>, r: int) -> Seq<int> {
    padd(seq![0int] + a, pscale(a, -r))
}

/// The quotient of `a(x) - a(r)` by `x - r`.
pub open spec fn pdiv_lin(a: Seq<int>, r: int) -> Seq<int>
    decreases a.len(),
{
    if a.len() == 0 {
        seq![]
    } else {
        let t = a.drop_first();
        padd(t, pscale(pdiv_lin(t, r), r))
    }
}

pub proof fn lemma_padd(a: Seq<int>, b: Seq<int>, x: int)
    ensures
        peval(padd(a, b), x) == peval(a, x) + peval(b, x),
        padd(a, b).len() == if a.len() >= b.len() {
            a.len()
        } else {
            b.len()
        },
    decreases a.len() + b.len(),
{
    let s = padd(a, b);
    if s.len() > 0 {
        let a2 = if a.len() > 0 {
            a.drop_first()
        } else {
            a
        };
        let b2 = if b.len() > 0 {
            b.drop_first()
        } else {
            b
        };
        assert(s.drop_first() =~= padd(a2, b2));
        lemma_padd(a2, b2, x);
        assert(peval(a, x) == coef(a, 0) + x * peval(a2, x));
        assert(peval(b, x) == coef(b, 0) + x * peval(b2, x));
        lemma_mul_is_distributive_add(x, peval(a2, x), peval(b2, x));
    }
}

pub proof fn lemma_pscale(a: Seq<int>, c: int, x: int)
    ensures
        peval(pscale(a, c), x) == c * peval(a, x),
        pscale(a, c).len() == a.len(),
    decreases a.len(),
{
    if a.len() > 0 {
        assert(pscale(a, c).drop_first() =~= pscale(a.drop_first(), c));
        lemma_pscale(a.drop_first(), c, x);
        let t = peval(a.drop_first(), x);
        assert(c * a[0] + x * (c * t) == c * (a[0] + x * t)) by (nonlinear_arith);
    }
}

pub proof fn lemma_pmul_lin(a: Seq<int>, r: int, x: int)
    ensures
        peval(pmul_lin(a, r), x) == (x - r) * peval(a, x),
        pmul_lin(a, r).len() == a.len() + 1,
{
    let z = seq![0int] + a;
    assert(z.drop_first() =~= a);
    assert(peval(z, x) == x * peval(a, x));
    lemma_pscale(a, -r, x);
    lemma_padd(z, pscale(a, -r), x);
    assert(x * peval(a, x) + (-r) * peval(a, x) == (x - r) * peval(a, x)) by (nonlinear_arith);
}

pub proof fn lemma_pdiv_lin(a: Seq<int>, r: int, x: int)
    ensures
        peval(a, x) - peval(a, r) == (x - r) * peval(pdiv_lin(a, r), x),
        pdiv_lin(a, r).len() == if a.len() == 0 {
            0
        } else {
            a.len() - 1
        },
    decreases a.len(),
{
    if a.len() > 0 {
        let t = a.drop_first();
        let q = pdiv_lin(t, r);
        lemma_pdiv_lin(t, r, x);
        lemma_pscale(q, r, x);
        lemma_padd(t, pscale(q, r), x);
        let tx = peval(t, x);
        let tr = peval(t, r);
        let qx = peval(q, x);
        assert(x * tx - r * tr == (x - r) * (tx + r * qx)) by (nonlinear_arith)
            requires
                tx - tr == (x - r) * qx,
        ;
    }
}

/// A factor that is not a multiple of the prime cancels from a product that is.
pub proof fn lemma_zero_factor(u: int, v: int)
    requires
        cong(u * v, 0),
        !cong(u, 0),
    ensures
        cong(v, 0),
{
    let u1 = u % p();
    let v1 = v % p();
    lemma_mod_bound(u, p());
    lemma_mod_bound(v, p());
    lemma_small_mod(0, p() as nat);
    lemma_mul_mod_noop(u, v, p());
    if v1 != 0 {
        let cu = FieldElement { value: u1 as u64 };
        let cv = FieldElement { value: v1 as u64 };
        let c0 = FieldElement { value: 0 };
        assert((u1 * 0) % p() == 0);
        lemma_mul_cancel(cu, cv, c0);
    }
}

/// A polynomial with at most as many coefficients as it has roots, pairwise distinct modulo
/// the prime, vanishes everywhere modulo the prime.
pub proof fn lemma_roots_vanish(a: Seq<int>, rs: Seq<int>, x: int)
    requires
        a.len() <= rs.len(),
        forall|i: int, j: int| 0 <= i < j < rs.len() ==> !cong(#[trigger] rs[i], #[trigger] rs[j]),
        forall|k: int| 0 <= k < rs.len() ==> cong(peval(a, #[trigger] rs[k]), 0),
    ensures
        cong(peval(a, x), 0),
    decreases a.len(),
{
    if a.len() == 0 {
    } else {
        let r = rs[0];
        let q = pdiv_lin(a, r);
        let rest = rs.drop_first();
        lemma_pdiv_lin(a, r, x);
        assert forall|k: int| 0 <= k < rest.len() implies cong(peval(q, #[trigger] rest[k]), 0) by {
            let y = rest[k];
            assert(y == rs[k + 1]);
            assert(cong(peval(a, rs[k + 1]), 0));
            assert(cong(peval(a, rs[0]), 0));
            lemma_pdiv_lin(a, r, y);
            lemma_sub_mod_noop(peval(a, y), peval(a, r), p());
            lemma_small_mod(0, p() as nat);
            assert(cong((y - r) * peval(q, y), 0));
            assert(!cong(y - r, 0)) by {
                if cong(y - r, 0) {
                    lemma_sub_mod_noop(y, r, p());
                    lemma_mod_bound(y, p());
                    lemma_mod_bound(r, p());
                    lemma_mod_twice(y % p() - r % p(), p());
                    assert(cong(rs[0], rs[k + 1])) by {
                        let d = y % p() - r % p();
                        if d != 0 {
                            assert(-p() < d < p());
                            if d > 0 {
                                lemma_small_mod(d as nat, p() as nat);
                            } else {
                                lemma_mod_add_multiples_vanish(d, p());
                                lemma_small_mod((d + p()) as nat, p() as nat);
                            }
                        }
                    }
                }
            }
            lemma_zero_factor(y - r, peval(q, y));
        }
        assert forall|i: int, j: int| 0 <= i < j < rest.len() implies !cong(
            #[trigger] rest[i],
            #[trigger] rest[j],
        ) by {
            assert(rest[i] == rs[i + 1] && rest[j] == rs[j + 1]);
        }
        lemma_roots_vanish(q, rest, x);
        assert(cong(peval(a, r), 0)) by {
            assert(cong(peval(a, rs[0]), 0));
        }
        lemma_mul_mod_noop_right(x - r, peval(q, x), p());
        lemma_mul_mod_noop(x - r, peval(q, x), p());
        lemma_add_mod_noop(peval(a, r), (x - r) * peval(q, x), p());
        lemma_small_mod(0, p() as nat);
        assert(((x - r) * 0) == 0);
    }
}

} // verus!
