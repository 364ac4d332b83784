//! Information-theoretic MACs over the field: a share `x` carries the tag `alpha * x`.
use crate::field::{
    fadd, fmul, lemma_cong_add, lemma_cong_canonical, lemma_cong_mul, lemma_cong_reduce,
    FieldElement, PRIME,
};
use crate::random::random_in_range;
use vstd::prelude::*;

verus! {

/// The global authentication key `alpha`.
#[derive(Debug, Clone, Copy)]
pub struct MacKey {
    pub alpha: FieldElement,
}

impl MacKey {
    /// A key with `alpha` drawn uniformly from `1..PRIME`.
    pub fn generate() -> (r: MacKey)
        ensures
            1 <= r.alpha.value < PRIME,
    {
        let alpha = random_in_range(1, PRIME);
        MacKey { alpha: FieldElement::new(alpha) }
    }

    /// A key with a chosen `alpha` (reduced modulo the prime).
    pub fn from_value(alpha: u64) -> (r: MacKey)
        ensures
            r.alpha.value == alpha % PRIME,
    {
        MacKey { alpha: FieldElement::new(alpha) }
    }
}

/// A share value together with its MAC tag.
#[derive(Debug, Clone, Copy)]
pub struct AuthenticatedShare {
    pub value: FieldElement,
    pub mac_tag: FieldElement,
}

/// The tag is exactly `alpha * value` modulo the prime.
pub open spec fn authentic(share: AuthenticatedShare, key: MacKey) -> bool {
    share.mac_tag.value == fmul(key.alpha.value as int, share.value.value as int)
}

/// The share of `value` that `AuthenticatedShare::new` builds under `key`.
pub open spec fn share_of(value: u64, key: MacKey) -> AuthenticatedShare {
    AuthenticatedShare {
        value: FieldElement { value: value % PRIME },
        mac_tag: FieldElement { value: fmul(key.alpha.value as int, (value % PRIME) as int) as u64 },
    }
}

/// Both components are canonical residues.
pub open spec fn share_wf(share: AuthenticatedShare) -> bool {
    share.value.wf() && share.mac_tag.wf()
}

/// Componentwise sum of two shares.
pub open spec fn share_sum(a: AuthenticatedShare, b: AuthenticatedShare) -> AuthenticatedShare {
    AuthenticatedShare {
        value: FieldElement { value: fadd(a.value.value as int, b.value.value as int) as u64 },
        mac_tag: FieldElement { value: fadd(a.mac_tag.value as int, b.mac_tag.value as int) as u64 },
    }
}

/// A share shifted by a public constant, the tag by `alpha * constant`.
pub open spec fn share_plus_constant(
    a: AuthenticatedShare,
    c: FieldElement,
    key: MacKey,
) -> AuthenticatedShare {
    AuthenticatedShare {
        value: FieldElement { value: fadd(a.value.value as int, c.value as int) as u64 },
        mac_tag: FieldElement {
            value: fadd(
                a.mac_tag.value as int,
                fmul(key.alpha.value as int, c.value as int),
            ) as u64,
        },
    }
}

/// A share scaled by a public constant, value and tag alike.
pub open spec fn share_times_constant(a: AuthenticatedShare, c: FieldElement) -> AuthenticatedShare {
    AuthenticatedShare {
        value: FieldElement { value: fmul(a.value.value as int, c.value as int) as u64 },
        mac_tag: FieldElement { value: fmul(a.mac_tag.value as int, c.value as int) as u64 },
    }
}

impl AuthenticatedShare {
    /// The share of `value` with tag `alpha * value`.
    pub fn new(value: u64, key: &MacKey) -> (r: AuthenticatedShare)
        ensures
            r == share_of(value, *key),
            share_wf(r),
            authentic(r, *key),
    {
        let value_fe = FieldElement::new(value);
        let mac_tag = key.alpha.mul(&value_fe);
        AuthenticatedShare { value: value_fe, mac_tag }
    }

    /// Bundles a value and a tag as they are.
    pub fn from_field_elements(value: FieldElement, mac_tag: FieldElement) -> (r: AuthenticatedShare)
        ensures
            r.value == value,
            r.mac_tag == mac_tag,
    {
        AuthenticatedShare { value, mac_tag }
    }

    /// Whether the tag equals `alpha * value` under `key`.
    pub fn verify(&self, key: &MacKey) -> (r: bool)
        ensures
            r == authentic(*self, *key),
    {
        let expected_tag = key.alpha.mul(&self.value);
        self.mac_tag == expected_tag
    }

    /// Adds two shares and their tags.
    pub fn add(&self, other: &AuthenticatedShare) -> (r: AuthenticatedShare)
        ensures
            r == share_sum(*self, *other),
            share_wf(r),
    {
        AuthenticatedShare {
            value: self.value.add(&other.value),
            mac_tag: self.mac_tag.add(&other.mac_tag),
        }
    }

    /// Adds a public constant to the value and `alpha * constant` to the tag.
    pub fn add_constant(&self, constant: &FieldElement, key: &MacKey) -> (r: AuthenticatedShare)
        ensures
            r == share_plus_constant(*self, *constant, *key),
            share_wf(r),
    {
        let new_value = self.value.add(constant);
        let alpha_times_c = key.alpha.mul(constant);
        let new_tag = self.mac_tag.add(&alpha_times_c);
        AuthenticatedShare { value: new_value, mac_tag: new_tag }
    }

    /// Multiplies value and tag by a public constant.
    pub fn mul_constant(&self, constant: &FieldElement) -> (r: AuthenticatedShare)
        ensures
            r == share_times_constant(*self, *constant),
            share_wf(r),
    {
        AuthenticatedShare { value: self.value.mul(constant), mac_tag: self.mac_tag.mul(constant) }
    }
}

/// Reveals the value of a share whose tag checks out, and nothing otherwise.
pub fn open(share: &AuthenticatedShare, key: &MacKey) -> (r: Option<FieldElement>)
    ensures
        r == (if authentic(*share, *key) {
            Some(share.value)
        } else {
            None::<FieldElement>
        }),
{
    if share.verify(key) {
        Some(share.value)
    } else {
        None
    }
}

/// The sum of two authentic shares is authentic: tags are linear in the value.
pub proof fn lemma_sum_stays_authentic(a: AuthenticatedShare, b: AuthenticatedShare, key: MacKey)
    requires
        authentic(a, key),
        authentic(b, key),
    ensures
        authentic(share_sum(a, b), key),
{
    let al = key.alpha.value as int;
    let x = a.value.value as int;
    let y = b.value.value as int;
    let s = fadd(x, y);
    lemma_cong_reduce(x + y);
    lemma_cong_mul(al, al, s, x + y);
    assert(al * (x + y) == al * x + al * y) by (nonlinear_arith);
    lemma_cong_reduce(al * x);
    lemma_cong_reduce(al * y);
    lemma_cong_add(fmul(al, x), al * x, fmul(al, y), al * y);
    lemma_cong_reduce(fmul(al, x) + fmul(al, y));
    lemma_cong_reduce(al * s);
    lemma_cong_canonical(
        fadd(a.mac_tag.value as int, b.mac_tag.value as int),
        fmul(al, s),
    );
}

/// Adding a public constant keeps an authentic share authentic.
pub proof fn lemma_plus_constant_stays_authentic(
    a: AuthenticatedShare,
    c: FieldElement,
    key: MacKey,
)
    requires
        authentic(a, key),
    ensures
        authentic(share_plus_constant(a, c, key), key),
{
    let al = key.alpha.value as int;
    let x = a.value.value as int;
    let k = c.value as int;
    let s = fadd(x, k);
    lemma_cong_reduce(x + k);
    lemma_cong_mul(al, al, s, x + k);
    assert(al * (x + k) == al * x + al * k) by (nonlinear_arith);
    lemma_cong_reduce(al * x);
    lemma_cong_reduce(al * k);
    lemma_cong_add(fmul(al, x), al * x, fmul(al, k), al * k);
    lemma_cong_reduce(fmul(al, x) + fmul(al, k));
    lemma_cong_reduce(al * s);
    lemma_cong_canonical(fadd(a.mac_tag.value as int, fmul(al, k)), fmul(al, s));
}

/// Scaling by a public constant keeps an authentic share authentic.
pub proof fn lemma_times_constant_stays_authentic(a: AuthenticatedShare, c: FieldElement, key: MacKey)
    requires
        authentic(a, key),
    ensures
        authentic(share_times_constant(a, c), key),
{
    let al = key.alpha.value as int;
    let x = a.value.value as int;
    let k = c.value as int;
    let m = fmul(x, k);
    lemma_cong_reduce(x * k);
    lemma_cong_mul(al, al, m, x * k);
    lemma_cong_reduce(al * x);
    lemma_cong_mul(fmul(al, x), al * x, k, k);
    assert(al * (x * k) == (al * x) * k) by (nonlinear_arith);
    lemma_cong_reduce(fmul(al, x) * k);
    lemma_cong_reduce(al * m);
    lemma_cong_canonical(fmul(a.mac_tag.value as int, k), fmul(al, m));
}

} // verus!

verus! {

/// Under a nonzero key a tag vouches for one value only: an authentic share whose value is
/// changed while its tag is kept fails verification.
pub proof fn lemma_changed_value_fails(s: AuthenticatedShare, w: FieldElement, key: MacKey)
    requires
        authentic(s, key),
        share_wf(s),
        key.alpha.wf(),
        key.alpha.value != 0,
        w.wf(),
        w.value != s.value.value,
    ensures
        !authentic(AuthenticatedShare { value: w, mac_tag: s.mac_tag }, key),
{
    if authentic(AuthenticatedShare { value: w, mac_tag: s.mac_tag }, key) {
        crate::field::lemma_mul_cancel(key.alpha, w, s.value);
    }
}

} // verus!
