//! SPDZ arithmetic on authenticated shares: local addition and Beaver multiplication.
use crate::field::{
    cong, fadd, fmul, fsub, lemma_cong_add, lemma_cong_canonical, lemma_cong_mul,
    lemma_cong_multiple, lemma_cong_reduce, p, FieldElement, PRIME,
};
use crate::mac::{
    authentic, lemma_plus_constant_stays_authentic, lemma_sum_stays_authentic,
    lemma_times_constant_stays_authentic, share_plus_constant, share_sum, share_of, share_times_constant,
    share_wf, AuthenticatedShare, MacKey,
};
use vstd::prelude::*;

verus! {

/// A preprocessed triple `(a, b, c)` meant to satisfy `c = a * b`.
#[derive(Debug, Clone, Copy)]
pub struct BeaverTriple {
    pub a: AuthenticatedShare,
    pub b: AuthenticatedShare,
    pub c: AuthenticatedShare,
}

/// The triple's product relation holds and every component is authentic under `key`.
pub open spec fn triple_valid(t: BeaverTriple, key: MacKey) -> bool {
    &&& authentic(t.a, key)
    &&& authentic(t.b, key)
    &&& authentic(t.c, key)
    &&& t.c.value.value == fmul(t.a.value.value as int, t.b.value.value as int)
}

/// The triple `(a, b, a*b)` built from two values, each component with its tag under `key`.
pub open spec fn triple_of(a_val: u64, b_val: u64, key: MacKey) -> BeaverTriple {
    BeaverTriple {
        a: share_of(a_val, key),
        b: share_of(b_val, key),
        c: share_of(fmul((a_val % PRIME) as int, (b_val % PRIME) as int) as u64, key),
    }
}

impl BeaverTriple {
    /// The triple `(a, b, a*b)` with tags under `key`.
    pub fn new(a_val: u64, b_val: u64, key: &MacKey) -> (r: BeaverTriple)
        ensures
            r == triple_of(a_val, b_val, *key),
            share_wf(r.a) && share_wf(r.b) && share_wf(r.c),
            triple_valid(r, *key),
    {
        let a = AuthenticatedShare::new(a_val, key);
        let b = AuthenticatedShare::new(b_val, key);
        let c_val = a.value.mul(&b.value).value;
        let c = AuthenticatedShare::new(c_val, key);
        proof {
            vstd::arithmetic::div_mod::lemma_small_mod(c_val as nat, PRIME as nat);
        }
        BeaverTriple { a, b, c }
    }
}

/// One participant of the computation.
#[derive(Debug)]
pub struct SpdzParty {
    pub party_id: usize,
    pub mac_key: MacKey,
}

impl SpdzParty {
    pub fn new(party_id: usize, mac_key: MacKey) -> (r: SpdzParty)
        ensures
            r.party_id == party_id,
            r.mac_key == mac_key,
    {
        SpdzParty { party_id, mac_key }
    }
}

/// Local addition of two shares.
pub fn spdz_add(share1: &AuthenticatedShare, share2: &AuthenticatedShare) -> (r: AuthenticatedShare)
    ensures
        r == share_sum(*share1, *share2),
{
    share1.add(share2)
}

/// Adds a public constant; only the first party changes its share.
pub fn spdz_add_constant(
    share: &AuthenticatedShare,
    constant: u64,
    key: &MacKey,
    is_first_party: bool,
) -> (r: AuthenticatedShare)
    ensures
        r == (if is_first_party {
            share_plus_constant(*share, FieldElement { value: constant % PRIME }, *key)
        } else {
            *share
        }),
{
    if is_first_party {
        let c = FieldElement::new(constant);
        share.add_constant(&c, key)
    } else {
        *share
    }
}

/// Multiplies a share by a public constant.
pub fn spdz_mul_constant(share: &AuthenticatedShare, constant: u64) -> (r: AuthenticatedShare)
    ensures
        r == share_times_constant(*share, FieldElement { value: constant % PRIME }),
{
    let c = FieldElement::new(constant);
    share.mul_constant(&c)
}

/// The opened mask `x - a`.
pub open spec fn beaver_epsilon(x: AuthenticatedShare, t: BeaverTriple) -> int {
    fadd(x.value.value as int, fsub(0, t.a.value.value as int))
}

/// The opened mask `y - b`.
pub open spec fn beaver_delta(y: AuthenticatedShare, t: BeaverTriple) -> int {
    fadd(y.value.value as int, fsub(0, t.b.value.value as int))
}

/// The share `c + epsilon*b + delta*a + epsilon*delta` that Beaver multiplication yields.
pub open spec fn beaver_product(
    x: AuthenticatedShare,
    y: AuthenticatedShare,
    t: BeaverTriple,
    key: MacKey,
) -> AuthenticatedShare {
    let eps = beaver_epsilon(x, t);
    let delta = beaver_delta(y, t);
    let r1 = share_sum(t.c, share_times_constant(t.b, FieldElement { value: eps as u64 }));
    let r2 = share_sum(r1, share_times_constant(t.a, FieldElement { value: delta as u64 }));
    share_plus_constant(r2, FieldElement { value: fmul(eps, delta) as u64 }, key)
}

/// Multiplication of two shares, consuming a Beaver triple.
pub fn spdz_mul(
    share_x: &AuthenticatedShare,
    share_y: &AuthenticatedShare,
    triple: &BeaverTriple,
    key: &MacKey,
) -> (r: AuthenticatedShare)
    requires
        triple.a.value.value <= PRIME,
        triple.a.mac_tag.value <= PRIME,
        triple.b.value.value <= PRIME,
        triple.b.mac_tag.value <= PRIME,
    ensures
        r == beaver_product(*share_x, *share_y, *triple, *key),
        share_wf(r),
{
    let epsilon_share = share_x.add(
        &AuthenticatedShare::from_field_elements(
            FieldElement::zero().sub(&triple.a.value),
            FieldElement::zero().sub(&triple.a.mac_tag),
        ),
    );
    let delta_share = share_y.add(
        &AuthenticatedShare::from_field_elements(
            FieldElement::zero().sub(&triple.b.value),
            FieldElement::zero().sub(&triple.b.mac_tag),
        ),
    );
    let epsilon = epsilon_share.value;
    let delta = delta_share.value;
    let mut result = triple.c;
    let epsilon_times_b = triple.b.mul_constant(&epsilon);
    result = result.add(&epsilon_times_b);
    let delta_times_a = triple.a.mul_constant(&delta);
    result = result.add(&delta_times_a);
    let epsilon_times_delta = epsilon.mul(&delta);
    result = result.add_constant(&epsilon_times_delta, key);
    result
}

/// Whether every share's tag checks out under `key`.
pub fn verify_all(shares: &[AuthenticatedShare], key: &MacKey) -> (r: bool)
    ensures
        r == (forall|i: int| 0 <= i < shares@.len() ==> authentic(#[trigger] shares@[i], *key)),
{
    let mut i: usize = 0;
    while i < shares.len()
        invariant
            i <= shares@.len(),
            forall|j: int| 0 <= j < i ==> authentic(#[trigger] shares@[j], *key),
        decreases shares@.len() - i,
    {
        if !shares[i].verify(key) {
            return false;
        }
        i = i + 1;
    }
    true
}

/// The integer sum of the share values.
pub open spec fn value_sum(s: Seq<AuthenticatedShare>) -> int
    decreases s.len(),
{
    if s.len() == 0 {
        0
    } else {
        value_sum(s.drop_last()) + s.last().value.value
    }
}

/// The integer sum of the tags.
pub open spec fn tag_sum(s: Seq<AuthenticatedShare>) -> int
    decreases s.len(),
{
    if s.len() == 0 {
        0
    } else {
        tag_sum(s.drop_last()) + s.last().mac_tag.value
    }
}

/// Sums all share values in the field.
pub fn reconstruct_secret(shares: &[AuthenticatedShare]) -> (r: FieldElement)
    ensures
        r.value == value_sum(shares@) % p(),
        r.wf(),
{
    let mut acc = FieldElement::zero();
    let mut i: usize = 0;
    while i < shares.len()
        invariant
            i <= shares@.len(),
            acc.value == value_sum(shares@.take(i as int)) % p(),
            acc.wf(),
        decreases shares@.len() - i,
    {
        let ghost before = acc.value as int;
        acc = acc.add(&shares[i].value);
        proof {
            let s = shares@.take(i as int + 1);
            assert(s.drop_last() =~= shares@.take(i as int));
            assert(s.last() == shares@[i as int]);
            lemma_cong_reduce(value_sum(shares@.take(i as int)));
            lemma_cong_add(
                before,
                value_sum(shares@.take(i as int)),
                shares@[i as int].value.value as int,
                shares@[i as int].value.value as int,
            );
            lemma_cong_reduce(before + shares@[i as int].value.value);
            lemma_cong_reduce(value_sum(s));
            lemma_cong_canonical(acc.value as int, value_sum(s) % p());
        }
        i = i + 1;
    }
    proof {
        assert(shares@.take(shares@.len() as int) =~= shares@);
    }
    acc
}

/// Beaver multiplication is correct: with a triple satisfying `c = a * b`, the
/// resulting share holds `x * y`.
pub proof fn lemma_beaver_product_value(
    x: AuthenticatedShare,
    y: AuthenticatedShare,
    t: BeaverTriple,
    key: MacKey,
)
    requires
        t.c.value.value == fmul(t.a.value.value as int, t.b.value.value as int),
    ensures
        beaver_product(x, y, t, key).value.value == fmul(x.value.value as int, y.value.value as int),
{
    let xv = x.value.value as int;
    let yv = y.value.value as int;
    let av = t.a.value.value as int;
    let bv = t.b.value.value as int;
    let cv = t.c.value.value as int;
    let eps = beaver_epsilon(x, t);
    let delta = beaver_delta(y, t);
    // eps == x - a, delta == y - b (mod p)
    assert(cong(eps, xv - av)) by {
        lemma_cong_reduce(0 + p() - av);
        lemma_cong_add(xv, xv, fsub(0, av), p() - av);
        lemma_cong_reduce(xv + fsub(0, av));
        lemma_cong_multiple(xv - av, 1);
    }
    assert(cong(delta, yv - bv)) by {
        lemma_cong_reduce(0 + p() - bv);
        lemma_cong_add(yv, yv, fsub(0, bv), p() - bv);
        lemma_cong_reduce(yv + fsub(0, bv));
        lemma_cong_multiple(yv - bv, 1);
    }
    lemma_cong_reduce(xv + fsub(0, av));
    lemma_cong_reduce(yv + fsub(0, bv));
    let t1 = fmul(bv, eps);
    let r1 = fadd(cv, t1);
    let t2 = fmul(av, delta);
    let r2 = fadd(r1, t2);
    let t3 = fmul(eps, delta);
    let r3 = fadd(r2, t3);
    lemma_cong_reduce(bv * eps);
    lemma_cong_mul(bv, bv, eps, xv - av);
    lemma_cong_reduce(av * bv);
    lemma_cong_add(cv, av * bv, t1, bv * (xv - av));
    lemma_cong_reduce(cv + t1);
    lemma_cong_reduce(av * delta);
    lemma_cong_mul(av, av, delta, yv - bv);
    lemma_cong_add(r1, av * bv + bv * (xv - av), t2, av * (yv - bv));
    lemma_cong_reduce(r1 + t2);
    lemma_cong_reduce(eps * delta);
    lemma_cong_mul(eps, xv - av, delta, yv - bv);
    lemma_cong_add(
        r2,
        av * bv + bv * (xv - av) + av * (yv - bv),
        t3,
        (xv - av) * (yv - bv),
    );
    lemma_cong_reduce(r2 + t3);
    assert(av * bv + bv * (xv - av) + av * (yv - bv) + (xv - av) * (yv - bv) == xv * yv)
        by (nonlinear_arith);
    lemma_cong_reduce(xv * yv);
    lemma_cong_reduce(eps);
    lemma_cong_reduce(delta);
    assert(0 <= t1 < p() && 0 <= t2 < p() && 0 <= t3 < p()) by {
        lemma_cong_reduce(bv * eps);
        lemma_cong_reduce(av * delta);
        lemma_cong_reduce(eps * delta);
    }
    lemma_cong_canonical(r3, fmul(xv, yv));
}

/// Beaver multiplication keeps authentication: if the triple's shares are authentic,
/// so is the product share.
pub proof fn lemma_beaver_product_authentic(
    x: AuthenticatedShare,
    y: AuthenticatedShare,
    t: BeaverTriple,
    key: MacKey,
)
    requires
        authentic(t.a, key),
        authentic(t.b, key),
        authentic(t.c, key),
    ensures
        authentic(beaver_product(x, y, t, key), key),
{
    let eps = beaver_epsilon(x, t);
    let delta = beaver_delta(y, t);
    let fe = FieldElement { value: eps as u64 };
    let fd = FieldElement { value: delta as u64 };
    lemma_times_constant_stays_authentic(t.b, fe, key);
    let r1 = share_sum(t.c, share_times_constant(t.b, fe));
    lemma_sum_stays_authentic(t.c, share_times_constant(t.b, fe), key);
    lemma_times_constant_stays_authentic(t.a, fd, key);
    let r2 = share_sum(r1, share_times_constant(t.a, fd));
    lemma_sum_stays_authentic(r1, share_times_constant(t.a, fd), key);
    lemma_plus_constant_stays_authentic(
        r2,
        FieldElement { value: fmul(eps, delta) as u64 },
        key,
    );
}

/// Parties adding their shares locally end up with shares of the sum: the reconstructed
/// value of the pointwise sums is the sum of the two reconstructed values.
pub proof fn lemma_local_addition_reconstructs_sum(
    xs: Seq<AuthenticatedShare>,
    ys: Seq<AuthenticatedShare>,
    zs: Seq<AuthenticatedShare>,
)
    requires
        xs.len() == ys.len(),
        zs.len() == xs.len(),
        forall|i: int| 0 <= i < zs.len() ==> #[trigger] zs[i] == share_sum(xs[i], ys[i]),
    ensures
        value_sum(zs) % p() == (value_sum(xs) + value_sum(ys)) % p(),
        tag_sum(zs) % p() == (tag_sum(xs) + tag_sum(ys)) % p(),
    decreases zs.len(),
{
    if zs.len() > 0 {
        let n = zs.len() - 1;
        assert forall|i: int| 0 <= i < zs.drop_last().len() implies #[trigger] zs.drop_last()[i]
            == share_sum(xs.drop_last()[i], ys.drop_last()[i]) by {
            assert(zs.drop_last()[i] == zs[i]);
        }
        lemma_local_addition_reconstructs_sum(xs.drop_last(), ys.drop_last(), zs.drop_last());
        let z = zs.last();
        assert(z == share_sum(xs[n], ys[n]));
        let xv = xs.last().value.value as int;
        let yv = ys.last().value.value as int;
        lemma_cong_reduce(xv + yv);
        lemma_cong_add(
            value_sum(zs.drop_last()),
            value_sum(xs.drop_last()) + value_sum(ys.drop_last()),
            z.value.value as int,
            xv + yv,
        );
        let xt = xs.last().mac_tag.value as int;
        let yt = ys.last().mac_tag.value as int;
        lemma_cong_reduce(xt + yt);
        lemma_cong_add(
            tag_sum(zs.drop_last()),
            tag_sum(xs.drop_last()) + tag_sum(ys.drop_last()),
            z.mac_tag.value as int,
            xt + yt,
        );
    }
}

} // verus!
