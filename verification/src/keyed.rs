//! Maps keyed by party id: listing their keys, and sums over their entries, which do not
//! depend on the order in which the keys are listed.
use std::collections::HashMap;
use vstd::prelude::*;

verus! {

/// `keys` lists every key of `m` once.
pub open spec fn lists_keys<V>(keys: Seq<u32>, m: Map<u32, V>) -> bool {
    keys.no_duplicates() && keys.to_set() == m.dom()
}

/// The sum of `f` over the entries of `m` at `keys`.
pub open spec fn sum_by<V>(m: Map<u32, V>, keys: Seq<u32>, f: spec_fn(V) -> int) -> int
    decreases keys.len(),
{
    if keys.len() == 0 {
        0
    } else {
        sum_by(m, keys.drop_last(), f) + f(m[keys.last()])
    }
}

/// Every key of `m`, each once, in the map's order.
pub fn keys_of<V>(m: &HashMap<u32, V>) -> (r: Vec<u32>)
    ensures
        lists_keys(r@, m@),
{
    let ghost full = vstd::std_specs::iter::IteratorSpec::remaining(
        &vstd::std_specs::hash::spec_keys_iter(m),
    ).unref();
    let mut keys: Vec<u32> = Vec::new();
    for k in it: m.keys()
        invariant
            it.snapshot@ == vstd::std_specs::hash::spec_keys_iter(m),
            full == it.seq().unref(),
            keys@ == full.take(it.index()),
            keys@.len() == it.index(),
    {
        proof {
            assert(full.take(it.index() + 1) =~= full.take(it.index()).push(*k));
        }
        keys.push(*k);
    }
    proof {
        assert(keys@ =~= full);
    }
    keys
}

/// Calls `HashMap::get_mut`: a mutable reference to the value under `k`, if any; what is
/// written through it becomes the map's value under `k`.
#[verifier::external_body]
pub(crate) fn entry_mut<'a, V>(m: &'a mut HashMap<u32, V>, k: u32) -> (r: Option<&'a mut V>)
    ensures
        match r {
            Some(v) => {
                &&& old(m)@.contains_key(k)
                &&& *v == old(m)@[k]
                &&& final(m)@ == old(m)@.insert(k, *final(v))
            },
            None => !old(m)@.contains_key(k) && final(m)@ == old(m)@,
        },
{
    m.get_mut(&k)
}

/// For a list of the keys of `m`, the entries passing `p` are as many as the keys of `m`
/// passing `p`.
pub proof fn lemma_filter_counts_set<V>(keys: Seq<u32>, m: Map<u32, V>, p: spec_fn(u32) -> bool)
    requires
        lists_keys(keys, m),
    ensures
        keys.filter(p).len() == m.dom().filter(p).len(),
{
    let f = keys.filter(p);
    lemma_filter_no_duplicates(keys, p);
    assert forall|x: u32| #[trigger] f.to_set().contains(x) <==> m.dom().filter(p).contains(x) by {
        if f.contains(x) {
            keys.lemma_filter_contains_rev(p, x);
        }
        if m.dom().filter(p).contains(x) {
            assert(keys.to_set().contains(x));
            let i = choose|i: int| 0 <= i < keys.len() && keys[i] == x;
            keys.lemma_filter_contains(p, i);
        }
    }
    assert(f.to_set() =~= m.dom().filter(p));
    f.unique_seq_to_set();
}

proof fn lemma_filter_no_duplicates(s: Seq<u32>, p: spec_fn(u32) -> bool)
    requires
        s.no_duplicates(),
    ensures
        s.filter(p).no_duplicates(),
    decreases s.len(),
{
    if s.len() > 0 {
        let init = s.drop_last();
        assert(init.no_duplicates());
        lemma_filter_no_duplicates(init, p);
        assert(s =~= init.push(s.last()));
        init.lemma_filter_push(s.last(), p);
        if p(s.last()) {
            assert(!init.filter(p).contains(s.last())) by {
                if init.filter(p).contains(s.last()) {
                    init.lemma_filter_contains_rev(p, s.last());
                    let j = choose|j: int| 0 <= j < init.len() && init[j] == s.last();
                    assert(s[j] == s[s.len() - 1]);
                }
            }
        }
    }
}

/// The sum over a prefix grows by the next entry and, with terms that are never negative,
/// stays within the sum over the whole list.
pub proof fn lemma_sum_prefix<V>(m: Map<u32, V>, keys: Seq<u32>, i: int, f: spec_fn(V) -> int)
    requires
        0 < i <= keys.len(),
        forall|v: V| #[trigger] f(v) >= 0,
    ensures
        sum_by(m, keys.take(i), f) == sum_by(m, keys.take(i - 1), f) + f(m[keys[i - 1]]),
        sum_by(m, keys.take(i), f) <= sum_by(m, keys, f),
        sum_by(m, keys.take(i - 1), f) >= 0,
{
    assert(keys.take(i).drop_last() =~= keys.take(i - 1));
    lemma_sum_prefix_bound(m, keys, i, f);
    lemma_sum_nonneg(m, keys.take(i - 1), f);
}

proof fn lemma_sum_nonneg<V>(m: Map<u32, V>, keys: Seq<u32>, f: spec_fn(V) -> int)
    requires
        forall|v: V| #[trigger] f(v) >= 0,
    ensures
        sum_by(m, keys, f) >= 0,
    decreases keys.len(),
{
    if keys.len() > 0 {
        lemma_sum_nonneg(m, keys.drop_last(), f);
    }
}

proof fn lemma_sum_prefix_bound<V>(m: Map<u32, V>, keys: Seq<u32>, i: int, f: spec_fn(V) -> int)
    requires
        0 <= i <= keys.len(),
        forall|v: V| #[trigger] f(v) >= 0,
    ensures
        sum_by(m, keys.take(i), f) <= sum_by(m, keys, f),
    decreases keys.len(),
{
    if i < keys.len() {
        lemma_sum_prefix_bound(m, keys.drop_last(), i, f);
        assert(keys.drop_last().take(i) =~= keys.take(i));
    } else {
        assert(keys.take(i) =~= keys);
    }
}

/// Removing the entry at `j` takes its term out of the sum.
proof fn lemma_sum_remove<V>(m: Map<u32, V>, keys: Seq<u32>, j: int, f: spec_fn(V) -> int)
    requires
        0 <= j < keys.len(),
    ensures
        sum_by(m, keys, f) == sum_by(m, keys.remove(j), f) + f(m[keys[j]]),
    decreases keys.len(),
{
    if j < keys.len() - 1 {
        lemma_sum_remove(m, keys.drop_last(), j, f);
        assert(keys.remove(j).drop_last() =~= keys.drop_last().remove(j));
        assert(keys.remove(j).last() == keys.last());
    } else {
        assert(keys.remove(j) =~= keys.drop_last());
    }
}

/// The sum over a list of keys does not depend on their order.
pub proof fn lemma_sum_any_order<V>(m: Map<u32, V>, a: Seq<u32>, b: Seq<u32>, f: spec_fn(V) -> int)
    requires
        a.no_duplicates(),
        b.no_duplicates(),
        a.to_set() == b.to_set(),
    ensures
        sum_by(m, a, f) == sum_by(m, b, f),
    decreases a.len(),
{
    a.unique_seq_to_set();
    b.unique_seq_to_set();
    if a.len() > 0 {
        let x = a.last();
        assert(a.to_set().contains(x));
        assert(b.to_set().contains(x));
        let j = choose|j: int| 0 <= j < b.len() && b[j] == x;
        let b2 = b.remove(j);
        let a2 = a.drop_last();
        lemma_sum_remove(m, b, j, f);
        assert(a2.no_duplicates());
        assert(b2.no_duplicates()) by {
            assert forall|p: int, q: int| 0 <= p < b2.len() && 0 <= q < b2.len() && p != q implies b2[p]
                != b2[q] by {
                let pp = if p < j { p } else { p + 1 };
                let qq = if q < j { q } else { q + 1 };
                assert(b2[p] == b[pp] && b2[q] == b[qq]);
            }
        }
        assert(a2.to_set() =~= b2.to_set()) by {
            assert forall|y: u32| a2.to_set().contains(y) <==> b2.to_set().contains(y) by {
                if a2.to_set().contains(y) {
                    let i = choose|i: int| 0 <= i < a2.len() && a2[i] == y;
                    assert(y != x) by {
                        assert(a[i] == y && a[a.len() - 1] == x);
                    }
                    assert(b.to_set().contains(y));
                    let k = choose|k: int| 0 <= k < b.len() && b[k] == y;
                    let kk = if k < j { k } else { k - 1 };
                    assert(b2[kk] == y);
                }
                if b2.to_set().contains(y) {
                    let k = choose|k: int| 0 <= k < b2.len() && b2[k] == y;
                    let kk = if k < j { k } else { k + 1 };
                    assert(b[kk] == y);
                    assert(y != x);
                    assert(a.to_set().contains(y));
                    let i = choose|i: int| 0 <= i < a.len() && a[i] == y;
                    assert(i != a.len() - 1);
                    assert(a2[i] == y);
                }
            }
        }
        lemma_sum_any_order(m, a2, b2, f);
    }
}

} // verus!
