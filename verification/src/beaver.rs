//! The offline phase: a pool of pre-generated Beaver triples consumed one per multiplication.
use crate::field::{fmul, FieldElement, PRIME};
use crate::mac::{share_wf, AuthenticatedShare, MacKey};
use crate::random::random_in_range;
use crate::spdz::{triple_of, triple_valid, BeaverTriple};
use vstd::prelude::*;

verus! {

/// Triples in generation order, with a cursor to the next unconsumed one.
pub struct TriplePool {
    triples: Vec<BeaverTriple>,
    next_index: usize,
}

impl TriplePool {
    #[verifier::type_invariant]
    spec fn cursor_in_range(self) -> bool {
        self.next_index <= self.triples@.len()
    }

    /// All triples ever generated into the pool, in order.
    pub closed spec fn contents(self) -> Seq<BeaverTriple> {
        self.triples@
    }

    /// How many triples have been handed out since creation or the last reset.
    pub closed spec fn cursor(self) -> nat {
        self.next_index as nat
    }

    /// An empty pool.
    pub fn new() -> (r: TriplePool)
        ensures
            r.contents() == Seq::<BeaverTriple>::empty(),
            r.cursor() == 0,
    {
        TriplePool { triples: Vec::new(), next_index: 0 }
    }

    /// Appends the triple `(a_val, b_val, a_val * b_val)` with tags under `key`.
    pub fn add_triple(&mut self, a_val: u64, b_val: u64, key: &MacKey)
        ensures
            final(self).contents() == old(self).contents().push(triple_of(a_val, b_val, *key)),
            final(self).cursor() == old(self).cursor(),
    {
        let a_fe = FieldElement::new(a_val);
        let b_fe = FieldElement::new(b_val);
        let c_fe = a_fe.mul(&b_fe);
        let a = AuthenticatedShare::new(a_val, key);
        let b = AuthenticatedShare::new(b_val, key);
        let c = AuthenticatedShare::new(c_fe.value, key);
        let mut taken = TriplePool::new();
        std::mem::swap(&mut taken, self);
        proof {
            use_type_invariant(&taken);
        }
        let TriplePool { triples, next_index } = taken;
        let mut triples = triples;
        triples.push(BeaverTriple { a, b, c });
        *self = TriplePool { triples, next_index };
    }

    /// Appends `count` triples whose `a` and `b` are drawn from `1..PRIME`.
    pub fn generate(&mut self, count: usize, key: &MacKey)
        ensures
            final(self).contents().len() == old(self).contents().len() + count,
            final(self).contents().take(old(self).contents().len() as int) == old(self).contents(),
            final(self).cursor() == old(self).cursor(),
            forall|i: int|
                old(self).contents().len() <= i < final(self).contents().len() ==> {
                    &&& triple_valid(#[trigger] final(self).contents()[i], *key)
                    &&& 1 <= final(self).contents()[i].a.value.value < PRIME
                    &&& 1 <= final(self).contents()[i].b.value.value < PRIME
                    &&& share_wf(final(self).contents()[i].a)
                    &&& share_wf(final(self).contents()[i].b)
                    &&& share_wf(final(self).contents()[i].c)
                },
    {
        let ghost start = self.contents();
        let mut k: usize = 0;
        while k < count
            invariant
                k <= count,
                self.contents().len() == start.len() + k,
                self.contents().take(start.len() as int) == start,
                self.cursor() == old(self).cursor(),
                start == old(self).contents(),
                forall|i: int|
                    start.len() <= i < self.contents().len() ==> {
                        &&& triple_valid(#[trigger] self.contents()[i], *key)
                        &&& 1 <= self.contents()[i].a.value.value < PRIME
                        &&& 1 <= self.contents()[i].b.value.value < PRIME
                        &&& share_wf(self.contents()[i].a)
                        &&& share_wf(self.contents()[i].b)
                        &&& share_wf(self.contents()[i].c)
                    },
            decreases count - k,
        {
            let a_val = random_in_range(1, PRIME);
            let b_val = random_in_range(1, PRIME);
            let ghost before = self.contents();
            self.add_triple(a_val, b_val, key);
            proof {
                lemma_triple_of_valid(a_val, b_val, *key);
                assert(self.contents().take(start.len() as int) =~= before.take(start.len() as int));
                assert forall|i: int| start.len() <= i < self.contents().len() implies {
                    &&& triple_valid(#[trigger] self.contents()[i], *key)
                    &&& 1 <= self.contents()[i].a.value.value < PRIME
                    &&& 1 <= self.contents()[i].b.value.value < PRIME
                    &&& share_wf(self.contents()[i].a)
                    &&& share_wf(self.contents()[i].b)
                    &&& share_wf(self.contents()[i].c)
                } by {
                    if i < before.len() {
                        assert(self.contents()[i] == before[i]);
                    }
                }
            }
            k = k + 1;
        }
    }

    /// Hands out the next unconsumed triple, or `None` once all are consumed.
    pub fn next(&mut self) -> (r: Option<BeaverTriple>)
        ensures
            final(self).contents() == old(self).contents(),
            old(self).cursor() < old(self).contents().len() ==> {
                &&& r == Some(old(self).contents()[old(self).cursor() as int])
                &&& final(self).cursor() == old(self).cursor() + 1
            },
            old(self).cursor() >= old(self).contents().len() ==> {
                &&& r is None
                &&& final(self).cursor() == old(self).cursor()
            },
    {
        proof {
            use_type_invariant(&*self);
        }
        if self.next_index >= self.triples.len() {
            return None;
        }
        let triple = self.triples[self.next_index];
        self.next_index = self.next_index + 1;
        Some(triple)
    }

    /// The number of triples not yet consumed.
    pub fn remaining(&self) -> (r: usize)
        ensures
            self.cursor() <= self.contents().len(),
            r == self.contents().len() - self.cursor(),
    {
        proof {
            use_type_invariant(self);
        }
        self.triples.len() - self.next_index
    }

    /// The number of triples consumed.
    pub fn consumed(&self) -> (r: usize)
        ensures
            r == self.cursor(),
    {
        self.next_index
    }

    /// Whether every triple has been consumed.
    pub fn is_empty(&self) -> (r: bool)
        ensures
            r == (self.cursor() >= self.contents().len()),
    {
        self.next_index >= self.triples.len()
    }

    /// Rewinds the cursor so that the same triples are handed out again.
    pub fn reset(&mut self)
        ensures
            final(self).contents() == old(self).contents(),
            final(self).cursor() == 0,
    {
        self.next_index = 0;
    }
}

/// The triple built from `a_val` and `b_val` satisfies `c = a * b` and carries valid tags.
proof fn lemma_triple_of_valid(a_val: u64, b_val: u64, key: MacKey)
    ensures
        triple_valid(triple_of(a_val, b_val, key), key),
        share_wf(triple_of(a_val, b_val, key).a),
        share_wf(triple_of(a_val, b_val, key).b),
        share_wf(triple_of(a_val, b_val, key).c),
        triple_of(a_val, b_val, key).a.value.value == a_val % PRIME,
        triple_of(a_val, b_val, key).b.value.value == b_val % PRIME,
{
    let c = fmul((a_val % PRIME) as int, (b_val % PRIME) as int);
    crate::field::lemma_cong_reduce((a_val % PRIME) as int * (b_val % PRIME) as int);
    vstd::arithmetic::div_mod::lemma_small_mod(c as nat, PRIME as nat);
    let k = key.alpha.value as int;
    crate::field::lemma_cong_reduce(k * (a_val % PRIME) as int);
    crate::field::lemma_cong_reduce(k * (b_val % PRIME) as int);
    crate::field::lemma_cong_reduce(k * c);
}

/// Whether every tag in the triple checks out and `c = a * b`.
pub fn verify_triple(triple: &BeaverTriple, key: &MacKey) -> (r: bool)
    ensures
        r == triple_valid(*triple, *key),
{
    if !triple.a.verify(key) {
        return false;
    }
    if !triple.b.verify(key) {
        return false;
    }
    if !triple.c.verify(key) {
        return false;
    }
    let expected_c = triple.a.value.mul(&triple.b.value);
    triple.c.value == expected_c
}

/// One fresh triple with `a` and `b` drawn from `1..PRIME`.
pub fn generate_single_triple(key: &MacKey) -> (r: BeaverTriple)
    ensures
        triple_valid(r, *key),
        1 <= r.a.value.value < PRIME,
        1 <= r.b.value.value < PRIME,
        share_wf(r.a) && share_wf(r.b) && share_wf(r.c),
{
    let mut pool = TriplePool::new();
    pool.generate(1, key);
    let t = pool.next();
    t.unwrap()
}

/// The preprocessing state of one computation.
pub struct OfflinePhase {
    pub triple_pool: TriplePool,
    pub mac_key: MacKey,
    pub party_count: usize,
}

impl OfflinePhase {
    /// Generates `mul_count + 10` triples under `mac_key`.
    pub fn new(mul_count: usize, party_count: usize, mac_key: MacKey) -> (r: OfflinePhase)
        requires
            mul_count + 10 <= usize::MAX,
        ensures
            r.triple_pool.contents().len() == mul_count + 10,
            r.triple_pool.cursor() == 0,
            forall|i: int|
                0 <= i < r.triple_pool.contents().len() ==> triple_valid(
                    #[trigger] r.triple_pool.contents()[i],
                    mac_key,
                ),
            r.mac_key == mac_key,
            r.party_count == party_count,
    {
        let mut pool = TriplePool::new();
        let buffer = mul_count + 10;
        pool.generate(buffer, &mac_key);
        OfflinePhase { triple_pool: pool, mac_key, party_count }
    }

    /// The next triple for a multiplication, or `None` when the pool is used up.
    pub fn get_triple(&mut self) -> (r: Option<BeaverTriple>)
        ensures
            final(self).triple_pool.contents() == old(self).triple_pool.contents(),
            final(self).mac_key == old(self).mac_key,
            final(self).party_count == old(self).party_count,
            old(self).triple_pool.cursor() < old(self).triple_pool.contents().len() ==> {
                &&& r == Some(old(self).triple_pool.contents()[old(self).triple_pool.cursor() as int])
                &&& final(self).triple_pool.cursor() == old(self).triple_pool.cursor() + 1
            },
            old(self).triple_pool.cursor() >= old(self).triple_pool.contents().len() ==> {
                &&& r is None
                &&& final(self).triple_pool.cursor() == old(self).triple_pool.cursor()
            },
    {
        self.triple_pool.next()
    }

    /// How many multiplications the unconsumed triples still allow.
    pub fn multiplications_remaining(&self) -> (r: usize)
        ensures
            r == self.triple_pool.contents().len() - self.triple_pool.cursor(),
    {
        self.triple_pool.remaining()
    }

    /// Whether every triple not yet handed out is valid under the key.
    pub fn verify_all_triples(&self) -> (r: bool)
        ensures
            r == (forall|i: int|
                self.triple_pool.cursor() <= i < self.triple_pool.contents().len() ==> triple_valid(
                    #[trigger] self.triple_pool.contents()[i],
                    self.mac_key,
                )),
    {
        let n = self.triple_pool.triples.len();
        let start = self.triple_pool.next_index;
        let mut i: usize = start;
        while i < n
            invariant
                n == self.triple_pool.contents().len(),
                start == self.triple_pool.cursor(),
                start <= i || n <= i,
                forall|j: int|
                    start <= j < i && j < n ==> triple_valid(#[trigger] self.triple_pool.contents()[j], self.mac_key),
            decreases n - i,
        {
            if !verify_triple(&self.triple_pool.triples[i], &self.mac_key) {
                return false;
            }
            i = i + 1;
        }
        true
    }
}

} // verus!
