//! SHA-256 hashing of bytes and `u64` values, binary Merkle trees over `u64` leaves with
//! membership proofs, and a Fiat-Shamir transcript.
use sha2::{Digest, Sha256};
use vstd::bytes::{spec_u64_from_le_bytes, spec_u64_to_le_bytes, u64_from_le_bytes, u64_to_le_bytes};
use crate::oram::{ceil_log2, lemma_ceil_log2_bound};
use vstd::arithmetic::div_mod::{lemma_div_denominator, lemma_multiply_divide_lt};
use vstd::arithmetic::power2::{lemma_pow2_pos, lemma_pow2_unfold, pow2};
use vstd::prelude::*;

verus! {

/// The SHA-256 digest of a byte string, as the `sha2` crate computes it.
pub uninterp spec fn sha256(data: Seq<u8>) -> Seq<u8>;

/// Calls `Sha256::new`, `Digest::update` with `data` and `Digest::finalize` of the `sha2`
/// crate, and converts the 32-byte output into an array. The contract names the digest
/// `sha256(data)` and claims nothing else of its bytes.
#[verifier::external_body]
fn sha256_digest(data: &[u8]) -> (r: [u8; 32])
    ensures
        r@ == sha256(data@),
{
    let mut hasher = Sha256::new();
    hasher.update(data);
    hasher.finalize().into()
}

/// Calls `hex::encode` of the `hex` crate, which writes each byte as two lowercase hex
/// digits, high nibble first.
#[verifier::external_body]
fn hex_encode(data: &[u8]) -> (r: String)
    ensures
        r@ == hex_string(data@),
{
    hex::encode(data)
}

/// The lowercase hex digit of a nibble.
pub open spec fn hex_digit(n: u8) -> char {
    if n < 10 {
        (48 + n) as char
    } else {
        (87 + n) as char
    }
}

/// Each byte as two lowercase hex digits, high nibble first.
pub open spec fn hex_string(b: Seq<u8>) -> Seq<char>
    decreases b.len(),
{
    if b.len() == 0 {
        Seq::empty()
    } else {
        hex_string(b.drop_last()) + seq![hex_digit(b.last() / 16), hex_digit(b.last() % 16)]
    }
}

/// The little-endian bytes of each value, concatenated in order.
pub open spec fn le_concat(s: Seq<u64>) -> Seq<u8>
    decreases s.len(),
{
    if s.len() == 0 {
        Seq::empty()
    } else {
        le_concat(s.drop_last()) + spec_u64_to_le_bytes(s.last())
    }
}

/// The digest of the eight little-endian bytes of `v`.
pub open spec fn leaf_digest(v: u64) -> Seq<u8> {
    sha256(spec_u64_to_le_bytes(v))
}

/// The digest of `left` followed by `right`.
pub open spec fn node_digest(left: Seq<u8>, right: Seq<u8>) -> Seq<u8> {
    sha256(left + right)
}

/// Thirty-two zero bytes.
pub open spec fn zero_digest() -> Seq<u8> {
    Seq::new(32, |i: int| 0u8)
}

/// The byte strings held by a sequence of digests.
pub open spec fn digests(v: Seq<[u8; 32]>) -> Seq<Seq<u8>> {
    v.map_values(|a: [u8; 32]| a@)
}

/// One level up: each pair of neighbours hashed together, the last node of an odd level
/// paired with itself.
pub open spec fn parent_level(level: Seq<Seq<u8>>) -> Seq<Seq<u8>> {
    Seq::new(
        ((level.len() + 1) / 2) as nat,
        |j: int|
            node_digest(
                level[2 * j],
                if 2 * j + 1 < level.len() {
                    level[2 * j + 1]
                } else {
                    level[2 * j]
                },
            ),
    )
}

/// Level `k` above `base`.
pub open spec fn level_of(base: Seq<Seq<u8>>, k: nat) -> Seq<Seq<u8>>
    decreases k,
{
    if k == 0 {
        base
    } else {
        parent_level(level_of(base, (k - 1) as nat))
    }
}

/// Levels `0..=k` above `base`, bottom first, concatenated.
pub open spec fn levels_upto(base: Seq<Seq<u8>>, k: nat) -> Seq<Seq<u8>>
    decreases k,
{
    if k == 0 {
        base
    } else {
        levels_upto(base, (k - 1) as nat) + level_of(base, k)
    }
}

/// `leaves` followed by zero digests up to `2^depth` entries.
pub open spec fn padded(leaves: Seq<Seq<u8>>, depth: nat) -> Seq<Seq<u8>> {
    Seq::new(pow2(depth), |i: int| if i < leaves.len() { leaves[i] } else { zero_digest() })
}

/// Where level `k` starts among the nodes of a tree of depth `depth`.
pub open spec fn level_offset(depth: nat, k: nat) -> nat
    decreases k,
{
    if k == 0 {
        0
    } else {
        level_offset(depth, (k - 1) as nat) + pow2((depth - (k - 1)) as nat)
    }
}

/// The other index of the pair that `c` belongs to.
pub open spec fn sibling_index(c: nat) -> nat {
    if c % 2 == 0 {
        c + 1
    } else {
        (c - 1) as nat
    }
}

/// The digest reached from `leaf` at position `index` by hashing with each sibling in turn,
/// the sibling on the right when the position at that level is even, else on the left.
pub open spec fn climb(leaf: Seq<u8>, index: nat, siblings: Seq<Seq<u8>>) -> Seq<u8>
    decreases siblings.len(),
{
    if siblings.len() == 0 {
        leaf
    } else {
        let k = (siblings.len() - 1) as nat;
        let cur = climb(leaf, index, siblings.drop_last());
        if (index / pow2(k)) % 2 == 0 {
            node_digest(cur, siblings.last())
        } else {
            node_digest(siblings.last(), cur)
        }
    }
}

/// A level of `2^j` nodes, `j >= 1`, has a parent level of `2^(j-1)` nodes.
proof fn lemma_parent_len(level: Seq<Seq<u8>>, j: nat)
    requires
        j >= 1,
        level.len() == pow2(j),
    ensures
        parent_level(level).len() == pow2((j - 1) as nat),
{
    lemma_pow2_unfold(j);
}

/// Above a base of `2^m` nodes, level `k <= m` has `2^(m-k)` nodes.
proof fn lemma_level_len(base: Seq<Seq<u8>>, m: nat, k: nat)
    requires
        base.len() == pow2(m),
        k <= m,
    ensures
        level_of(base, k).len() == pow2((m - k) as nat),
    decreases k,
{
    if k > 0 {
        lemma_level_len(base, m, (k - 1) as nat);
        lemma_parent_len(level_of(base, (k - 1) as nat), (m - (k - 1)) as nat);
    }
}

/// Levels `0..=k` hold `level_offset(m, k + 1)` nodes.
proof fn lemma_levels_len(base: Seq<Seq<u8>>, m: nat, k: nat)
    requires
        base.len() == pow2(m),
        k <= m,
    ensures
        levels_upto(base, k).len() == level_offset(m, k + 1),
    decreases k,
{
    lemma_level_len(base, m, k);
    assert(level_offset(m, k + 1) == level_offset(m, k) + pow2((m - k) as nat));
    if k > 0 {
        lemma_levels_len(base, m, (k - 1) as nat);
        assert(levels_upto(base, k).len() == levels_upto(base, (k - 1) as nat).len() + level_of(
            base,
            k,
        ).len());
    }
}

proof fn lemma_offset_grows(m: nat, k1: nat, k2: nat)
    requires
        k1 <= k2,
    ensures
        level_offset(m, k1) <= level_offset(m, k2),
    decreases k2,
{
    if k1 < k2 {
        lemma_offset_grows(m, k1, (k2 - 1) as nat);
    }
}

/// Node `j` of level `k` sits at `level_offset(m, k) + j` among the levels `0..=kk`, `k <= kk`.
proof fn lemma_levels_index(base: Seq<Seq<u8>>, m: nat, kk: nat, k: nat, j: int)
    requires
        base.len() == pow2(m),
        k <= kk <= m,
        0 <= j < pow2((m - k) as nat),
    ensures
        levels_upto(base, kk)[level_offset(m, k) + j] == level_of(base, k)[j],
    decreases kk,
{
    lemma_level_len(base, m, k);
    if kk == k {
        if k > 0 {
            lemma_levels_len(base, m, (k - 1) as nat);
        }
    } else {
        lemma_levels_index(base, m, (kk - 1) as nat, k, j);
        lemma_levels_len(base, m, (kk - 1) as nat);
        lemma_offset_grows(m, k + 1, kk);
    }
}

/// `c <= 2^ceil(log2(c))`.
proof fn lemma_ceil_log2_covers(c: nat)
    ensures
        c <= pow2(ceil_log2(c)),
    decreases c,
{
    lemma_pow2_pos(ceil_log2(c));
    if c > 1 {
        lemma_ceil_log2_covers(((c + 1) / 2) as nat);
        lemma_pow2_unfold(ceil_log2(c));
    }
}

/// `2^e` for `e` with `2^e` in range.
fn pow2_usize(e: usize) -> (r: usize)
    requires
        pow2(e as nat) <= usize::MAX,
    ensures
        r == pow2(e as nat),
{
    let mut r: usize = 1;
    let mut i: usize = 0;
    proof {
        vstd::arithmetic::power2::lemma2_to64();
    }
    while i < e
        invariant
            i <= e,
            r == pow2(i as nat),
            pow2(e as nat) <= usize::MAX,
        decreases e - i,
    {
        proof {
            lemma_pow2_unfold((i + 1) as nat);
            if i + 1 < e {
                vstd::arithmetic::power2::lemma_pow2_strictly_increases((i + 1) as nat, e as nat);
            }
        }
        r = r * 2;
        i = i + 1;
    }
    r
}

/// The SHA-256 digest of `data`.
pub fn hash_bytes(data: &[u8]) -> (r: [u8; 32])
    ensures
        r@ == sha256(data@),
{
    sha256_digest(data)
}

/// The digest of `left` followed by `right`.
pub fn hash_two(left: &[u8; 32], right: &[u8; 32]) -> (r: [u8; 32])
    ensures
        r@ == node_digest(left@, right@),
{
    let mut buf: Vec<u8> = Vec::new();
    buf.extend_from_slice(left.as_slice());
    buf.extend_from_slice(right.as_slice());
    proof {
        assert(buf@ =~= left@ + right@);
    }
    sha256_digest(buf.as_slice())
}

/// The digest of the eight little-endian bytes of `value`.
pub fn hash_u64(value: u64) -> (r: [u8; 32])
    ensures
        r@ == leaf_digest(value),
{
    let bytes = u64_to_le_bytes(value);
    sha256_digest(bytes.as_slice())
}

/// The digest of the little-endian bytes of all `elements`, in order.
pub fn hash_field_elements(elements: &[u64]) -> (r: [u8; 32])
    ensures
        r@ == sha256(le_concat(elements@)),
{
    let mut buf: Vec<u8> = Vec::new();
    let mut i: usize = 0;
    while i < elements.len()
        invariant
            i <= elements@.len(),
            buf@ == le_concat(elements@.take(i as int)),
        decreases elements@.len() - i,
    {
        let bytes = u64_to_le_bytes(elements[i]);
        buf.extend_from_slice(bytes.as_slice());
        proof {
            let t = elements@.take(i as int + 1);
            assert(t.drop_last() =~= elements@.take(i as int));
            assert(buf@ =~= le_concat(t));
        }
        i = i + 1;
    }
    proof {
        assert(elements@.take(elements@.len() as int) =~= elements@);
    }
    sha256_digest(buf.as_slice())
}

/// Whether two digests hold the same bytes.
pub fn digest_eq(a: &[u8; 32], b: &[u8; 32]) -> (r: bool)
    ensures
        r == (a@ == b@),
{
    let mut i: usize = 0;
    while i < 32
        invariant
            i <= 32,
            a@.len() == 32,
            b@.len() == 32,
            forall|j: int| 0 <= j < i ==> a@[j] == b@[j],
        decreases 32 - i,
    {
        if a[i] != b[i] {
            return false;
        }
        i = i + 1;
    }
    proof {
        assert(a@ =~= b@);
    }
    true
}

/// The sibling that a proof for `index` records at level `k` of a tree of depth `depth` over
/// `base`: the node paired with the position at that level, or zeros where that pair lies
/// past the level's end.
pub open spec fn path_sibling(base: Seq<Seq<u8>>, depth: nat, index: nat, k: nat) -> Seq<u8> {
    let c = index / pow2(k);
    let s = sibling_index(c);
    let size = pow2((depth - k) as nat);
    if s < level_offset(depth, k) + size {
        level_of(base, k)[(s % size) as int]
    } else {
        zero_digest()
    }
}

/// The siblings that a proof for `index` records, bottom first.
pub open spec fn siblings_for(base: Seq<Seq<u8>>, depth: nat, index: nat) -> Seq<Seq<u8>> {
    Seq::new(depth, |k: int| path_sibling(base, depth, index, k as nat))
}

/// The bottom level of the tree over `values`.
pub open spec fn merkle_base(values: Seq<u64>) -> Seq<Seq<u8>> {
    padded(values.map_values(|v: u64| leaf_digest(v)), ceil_log2(values.len()))
}

/// The root of the tree over `values`.
pub open spec fn merkle_root(values: Seq<u64>) -> Seq<u8> {
    level_of(merkle_base(values), ceil_log2(values.len()))[0]
}

/// Whether a membership proof verifies: climbing from its leaf ends at its root.
pub open spec fn proof_holds(proof: MerkleProof) -> bool {
    climb(proof.leaf@, proof.index as nat, digests(proof.siblings@)) == proof.root@
}

/// A binary Merkle tree over the digests of `u64` leaf values. `nodes` holds every level,
/// bottom first: the leaf digests padded with zero digests to `2^depth` entries, then each
/// level above, up to the root.
#[derive(Debug, Clone)]
pub struct MerkleTree {
    pub leaves: Vec<[u8; 32]>,
    pub nodes: Vec<[u8; 32]>,
    pub depth: usize,
}

/// A claim that `leaf` sits at `index` under `root`, with the siblings along the way up.
#[derive(Debug, Clone, PartialEq)]
pub struct MerkleProof {
    pub index: usize,
    pub leaf: [u8; 32],
    pub siblings: Vec<[u8; 32]>,
    pub root: [u8; 32],
}

impl MerkleTree {
    /// The bottom level: the leaf digests padded with zero digests to `2^depth` entries.
    pub open spec fn base(self) -> Seq<Seq<u8>> {
        padded(digests(self.leaves@), self.depth as nat)
    }

    /// The single node of the top level.
    pub open spec fn root_digest(self) -> Seq<u8> {
        level_of(self.base(), self.depth as nat)[0]
    }

    /// At least one leaf, `depth = ceil(log2(leaf count))`, and `nodes` holds every level.
    pub open spec fn wf(self) -> bool {
        &&& self.leaves@.len() >= 1
        &&& self.depth == ceil_log2(self.leaves@.len())
        &&& digests(self.nodes@) == levels_upto(self.base(), self.depth as nat)
    }

    /// The siblings that a proof for `index` records, bottom first.
    pub open spec fn sibling_path(self, index: nat) -> Seq<Seq<u8>> {
        siblings_for(self.base(), self.depth as nat, index)
    }

    /// The tree over the digests of `leaf_values`.
    pub fn new(leaf_values: &[u64]) -> (r: MerkleTree)
        requires
            1 <= leaf_values@.len() <= usize::MAX / 8 + 1,
        ensures
            r.wf(),
            digests(r.leaves@) == leaf_values@.map_values(|v: u64| leaf_digest(v)),
            r.base() == merkle_base(leaf_values@),
            r.root_digest() == merkle_root(leaf_values@),
    {
        let n = leaf_values.len();
        let mut leaves: Vec<[u8; 32]> = Vec::new();
        let mut i: usize = 0;
        while i < n
            invariant
                n == leaf_values@.len(),
                i <= n,
                digests(leaves@) == leaf_values@.take(i as int).map_values(|v: u64| leaf_digest(v)),
            decreases n - i,
        {
            let h = hash_u64(leaf_values[i]);
            let ghost prev = leaves@;
            leaves.push(h);
            proof {
                assert(digests(leaves@) =~= digests(prev).push(h@));
                assert(leaf_values@.take(i as int + 1).map_values(|v: u64| leaf_digest(v))
                    =~= leaf_values@.take(i as int).map_values(|v: u64| leaf_digest(v)).push(
                    leaf_digest(leaf_values@[i as int]),
                ));
            }
            i = i + 1;
        }
        proof {
            assert(leaf_values@.take(n as int) =~= leaf_values@);
            lemma_ceil_log2_bound(n as nat);
        }
        let mut c = n;
        let mut depth: usize = 0;
        while c > 1
            invariant
                c <= n,
                n <= usize::MAX / 8 + 1,
                depth + ceil_log2(c as nat) == ceil_log2(n as nat),
                ceil_log2(n as nat) <= n,
            decreases c,
        {
            c = (c + 1) / 2;
            depth = depth + 1;
        }
        proof {
            vstd::arithmetic::power2::lemma_pow2_strictly_increases(depth as nat, depth as nat + 1);
        }
        let target_size = pow2_usize(depth);
        let ghost base = padded(digests(leaves@), depth as nat);
        let mut level: Vec<[u8; 32]> = Vec::new();
        let mut nodes: Vec<[u8; 32]> = Vec::new();
        let mut j: usize = 0;
        while j < target_size
            invariant
                target_size == pow2(depth as nat),
                leaves@.len() == n,
                base == padded(digests(leaves@), depth as nat),
                j <= target_size,
                nodes@ == level@,
                digests(level@) == base.take(j as int),
            decreases target_size - j,
        {
            let d = if j < n {
                leaves[j]
            } else {
                [0u8; 32]
            };
            let ghost prev = level@;
            level.push(d);
            nodes.push(d);
            proof {
                if j >= n {
                    assert(d@ =~= zero_digest());
                } else {
                    assert(d@ == digests(leaves@)[j as int]);
                }
                assert(d@ == base[j as int]);
                assert(digests(level@) =~= digests(prev).push(d@));
                assert(base.take(j as int + 1) =~= base.take(j as int).push(base[j as int]));
            }
            j = j + 1;
        }
        proof {
            assert(base.take(target_size as int) =~= base);
        }
        let ghost mut k: nat = 0;
        while level.len() > 1
            invariant
                base.len() == pow2(depth as nat),
                k <= depth,
                level@.len() == pow2((depth - k) as nat),
                digests(level@) == level_of(base, k),
                digests(nodes@) == levels_upto(base, k),
            decreases level@.len(),
        {
            let ghost lv = digests(level@);
            let len = level.len();
            proof {
                if k == depth {
                    assert(pow2(0) == 1) by {
                        vstd::arithmetic::power2::lemma2_to64();
                    }
                }
                lemma_pow2_unfold((depth - k) as nat);
            }
            let mut next: Vec<[u8; 32]> = Vec::new();
            let mut i: usize = 0;
            while i < len
                invariant
                    len == level@.len(),
                    lv == digests(level@),
                    len % 2 == 0,
                    i <= len,
                    i % 2 == 0,
                    digests(next@) == parent_level(lv).take(i as int / 2),
                decreases len - i,
            {
                let left = level[i];
                let right = if i + 1 < len {
                    level[i + 1]
                } else {
                    level[i]
                };
                let h = hash_two(&left, &right);
                let ghost prev = next@;
                next.push(h);
                proof {
                    assert(lv[i as int] == left@);
                    assert(i + 1 < len ==> lv[i as int + 1] == right@);
                    assert(2 * (i as int / 2) == i);
                    assert(h@ == parent_level(lv)[i as int / 2]);
                    assert(digests(next@) =~= digests(prev).push(h@));
                    assert(parent_level(lv).take(i as int / 2 + 1) =~= parent_level(lv).take(
                        i as int / 2,
                    ).push(parent_level(lv)[i as int / 2]));
                }
                i = i + 2;
            }
            proof {
                assert(parent_level(lv).take(len as int / 2) =~= parent_level(lv));
            }
            let ghost before = digests(nodes@);
            let mut t: usize = 0;
            while t < next.len()
                invariant
                    t <= next@.len(),
                    digests(nodes@) == before + digests(next@).take(t as int),
                decreases next@.len() - t,
            {
                let ghost prev = nodes@;
                nodes.push(next[t]);
                proof {
                    assert(digests(nodes@) =~= digests(prev).push(next@[t as int]@));
                    assert(digests(next@).take(t as int + 1) =~= digests(next@).take(t as int).push(
                        next@[t as int]@,
                    ));
                }
                t = t + 1;
            }
            proof {
                assert(digests(next@).take(next@.len() as int) =~= digests(next@));
                lemma_parent_len(lv, (depth - k) as nat);
                k = k + 1;
            }
            level = next;
        }
        proof {
            if k < depth {
                vstd::arithmetic::power2::lemma_pow2_strictly_increases(0, (depth - k) as nat);
                vstd::arithmetic::power2::lemma2_to64();
            }
        }
        MerkleTree { leaves, nodes, depth }
    }

    /// The last node, or zeros for a tree without nodes; the root for a well-formed tree.
    pub fn root(&self) -> (r: [u8; 32])
        ensures
            self.nodes@.len() > 0 ==> r == self.nodes@.last(),
            self.nodes@.len() == 0 ==> r@ == zero_digest(),
            self.wf() ==> r@ == self.root_digest(),
    {
        proof {
            if self.wf() {
                self.lemma_root_is_last();
            }
        }
        if self.nodes.len() > 0 {
            self.nodes[self.nodes.len() - 1]
        } else {
            let z = [0u8; 32];
            proof {
                assert(z@ =~= zero_digest());
            }
            z
        }
    }

    /// The root as lowercase hex.
    pub fn root_hex(&self) -> (r: String)
        ensures
            self.nodes@.len() > 0 ==> r@ == hex_string(self.nodes@.last()@),
            self.nodes@.len() == 0 ==> r@ == hex_string(zero_digest()),
    {
        let root = self.root();
        hex_encode(root.as_slice())
    }

    /// A membership proof for `index`: the leaf at `index` (the last leaf for a larger index),
    /// the siblings along the way up and the root.
    pub fn membership_proof(&self, index: usize) -> (r: MerkleProof)
        requires
            self.wf(),
        ensures
            r.index == index,
            r.leaf@ == self.leaves@[if index < self.leaves@.len() - 1 {
                index as int
            } else {
                self.leaves@.len() - 1
            }]@,
            digests(r.siblings@) == self.sibling_path(index as nat),
            r.root@ == self.root_digest(),
    {
        let ghost d = self.depth as nat;
        let ghost base = self.base();
        proof {
            lemma_levels_len(base, d, d);
            lemma_offset_grows(d, 1, d + 1);
            vstd::arithmetic::power2::lemma2_to64();
            assert(level_offset(d, 0) == 0);
            assert(level_offset(d, 1) == pow2(d));
        }
        let node_count = self.nodes.len();
        let mut siblings: Vec<[u8; 32]> = Vec::new();
        let mut current = index;
        let leaf_count = pow2_usize(self.depth);
        let mut level_start: usize = 0;
        let mut level_size = leaf_count;
        let ghost mut k: nat = 0;
        while level_size > 1
            invariant
                self.wf(),
                d == self.depth,
                base == self.base(),
                base.len() == pow2(d),
                self.nodes@.len() == level_offset(d, d + 1),
                node_count == self.nodes@.len(),
                k <= d,
                level_size == pow2((d - k) as nat),
                level_start == level_offset(d, k),
                current == index as nat / pow2(k),
                digests(siblings@) == self.sibling_path(index as nat).take(k as int),
            decreases level_size,
        {
            proof {
                vstd::arithmetic::power2::lemma2_to64();
                if k == d {
                    assert(pow2(0) == 1);
                }
                lemma_pow2_unfold((d - k) as nat);
                lemma_offset_grows(d, k + 1, d + 1);
                assert(level_offset(d, k + 1) == level_offset(d, k) + pow2((d - k) as nat));
                assert(usize::MAX % 2 == 1);
            }
            let sibling = if current % 2 == 0 {
                current + 1
            } else {
                current - 1
            };
            let ghost prev = siblings@;
            if sibling < level_start + level_size {
                let pos = level_start + sibling % level_size;
                let node = self.nodes[pos];
                siblings.push(node);
                proof {
                    lemma_levels_index(base, d, d, k, (sibling % level_size) as int);
                    assert(node@ == digests(self.nodes@)[pos as int]);
                }
            } else {
                let z = [0u8; 32];
                siblings.push(z);
                proof {
                    assert(z@ =~= zero_digest());
                }
            }
            proof {
                assert(digests(siblings@) =~= digests(prev).push(siblings@.last()@));
                assert(self.sibling_path(index as nat).take(k as int + 1) =~= self.sibling_path(
                    index as nat,
                ).take(k as int).push(path_sibling(base, d, index as nat, k)));
                lemma_pow2_pos(k);
                lemma_div_denominator(index as int, pow2(k) as int, 2);
                vstd::arithmetic::power2::lemma_pow2_adds(k, 1);
                assert(pow2(1) == 2);
            }
            level_start = level_start + level_size;
            level_size = level_size / 2;
            current = current / 2;
            proof {
                k = k + 1;
            }
        }
        proof {
            if k < d {
                vstd::arithmetic::power2::lemma_pow2_strictly_increases(0, (d - k) as nat);
            }
            assert(self.sibling_path(index as nat).take(d as int) =~= self.sibling_path(
                index as nat,
            ));
        }
        let last = self.leaves.len() - 1;
        let leaf_index = if index < last {
            index
        } else {
            last
        };
        MerkleProof { index, leaf: self.leaves[leaf_index], siblings, root: self.root() }
    }

    /// Whether hashing `proof.leaf` with its siblings, in the order that `proof.index` gives,
    /// ends at `proof.root`.
    pub fn verify_proof(proof: &MerkleProof) -> (r: bool)
        ensures
            r == proof_holds(*proof),
    {
        let mut current = proof.leaf;
        let mut index = proof.index;
        let mut k: usize = 0;
        let ghost sibs = digests(proof.siblings@);
        proof {
            vstd::arithmetic::power2::lemma2_to64();
        }
        while k < proof.siblings.len()
            invariant
                sibs == digests(proof.siblings@),
                k <= proof.siblings@.len(),
                index == proof.index as nat / pow2(k as nat),
                current@ == climb(proof.leaf@, proof.index as nat, sibs.take(k as int)),
            decreases proof.siblings@.len() - k,
        {
            let sibling = proof.siblings[k];
            proof {
                let t = sibs.take(k as int + 1);
                assert(t.drop_last() =~= sibs.take(k as int));
                assert(t.last() == sibling@);
            }
            current = if index % 2 == 0 {
                hash_two(&current, &sibling)
            } else {
                hash_two(&sibling, &current)
            };
            proof {
                lemma_pow2_pos(k as nat);
                lemma_div_denominator(proof.index as int, pow2(k as nat) as int, 2);
                vstd::arithmetic::power2::lemma_pow2_adds(k as nat, 1);
                vstd::arithmetic::power2::lemma2_to64();
            }
            index = index / 2;
            k = k + 1;
        }
        proof {
            assert(sibs.take(proof.siblings@.len() as int) =~= sibs);
        }
        digest_eq(&current, &proof.root)
    }

    proof fn lemma_root_is_last(self)
        requires
            self.wf(),
        ensures
            self.nodes@.len() > 0,
            self.nodes@.last()@ == self.root_digest(),
    {
        let d = self.depth as nat;
        let base = self.base();
        vstd::arithmetic::power2::lemma2_to64();
        lemma_levels_len(base, d, d);
        lemma_levels_index(base, d, d, d, 0);
        assert(level_offset(d, d + 1) == level_offset(d, d) + 1);
        assert(digests(self.nodes@)[self.nodes@.len() - 1] == self.nodes@.last()@);
    }
}

/// Every membership proof of the tree over `values` verifies: climbing from the digest of
/// the leaf at `index` with the siblings that the tree records for `index` ends at the root.
pub proof fn lemma_merkle_proof_verifies(values: Seq<u64>, index: nat)
    requires
        index < values.len(),
    ensures
        climb(
            leaf_digest(values[index as int]),
            index,
            siblings_for(merkle_base(values), ceil_log2(values.len()), index),
        ) == merkle_root(values),
{
    let d = ceil_log2(values.len());
    let base = merkle_base(values);
    lemma_ceil_log2_covers(values.len());
    lemma_climb_levels(base, d, index, d);
    lemma_pow2_pos(d);
    vstd::arithmetic::div_mod::lemma_basic_div(index as int, pow2(d) as int);
    assert(siblings_for(base, d, index).take(d as int) =~= siblings_for(base, d, index));
}

/// Climbing `k` levels from node `index` of `base` reaches node `index / 2^k` of level `k`.
proof fn lemma_climb_levels(base: Seq<Seq<u8>>, d: nat, index: nat, k: nat)
    requires
        base.len() == pow2(d),
        index < pow2(d),
        k <= d,
    ensures
        climb(base[index as int], index, siblings_for(base, d, index).take(k as int)) == level_of(
            base,
            k,
        )[(index / pow2(k)) as int],
    decreases k,
{
    let path = siblings_for(base, d, index);
    vstd::arithmetic::power2::lemma2_to64();
    if k == 0 {
        assert(path.take(0) =~= Seq::<Seq<u8>>::empty());
    } else {
        let j = (k - 1) as nat;
        lemma_climb_levels(base, d, index, j);
        let t = path.take(k as int);
        assert(t.drop_last() =~= path.take(j as int));
        let c = index / pow2(j);
        let size = pow2((d - j) as nat);
        lemma_pow2_pos(j);
        lemma_pow2_pos((d - j) as nat);
        lemma_pow2_unfold((d - j) as nat);
        vstd::arithmetic::power2::lemma_pow2_adds(j, (d - j) as nat);
        lemma_multiply_divide_lt(index as int, pow2(j) as int, size as int);
        assert(c < size);
        lemma_level_len(base, d, j);
        let lv = level_of(base, j);
        assert(level_of(base, k) == parent_level(lv));
        lemma_div_denominator(index as int, pow2(j) as int, 2);
        vstd::arithmetic::power2::lemma_pow2_adds(j, 1);
        assert(index / pow2(k) == c / 2);
        let s = sibling_index(c);
        assert(s < size);
        vstd::arithmetic::div_mod::lemma_small_mod(s, size);
        assert(t.last() == path[j as int]);
        assert(t.last() == lv[s as int]);
    }
}

/// An append-only byte log from which challenges are drawn by hashing.
#[derive(Debug, Clone)]
pub struct Transcript {
    state: Vec<u8>,
}

impl View for Transcript {
    type V = Seq<u8>;

    closed spec fn view(&self) -> Seq<u8> {
        self.state@
    }
}

/// The `u64` read little-endian from the first eight bytes of `h`.
pub open spec fn challenge_of(h: Seq<u8>) -> u64 {
    spec_u64_from_le_bytes(h.take(8))
}

impl Transcript {
    /// A transcript holding the UTF-8 bytes of `label`.
    pub fn new(label: &str) -> (r: Transcript)
        ensures
            r@ == vstd::utf8::encode_utf8(label@),
    {
        let mut state: Vec<u8> = Vec::new();
        state.extend_from_slice(label.as_bytes());
        proof {
            assert(state@ =~= vstd::utf8::encode_utf8(label@));
        }
        Transcript { state }
    }

    /// Appends `data`.
    pub fn absorb(&mut self, data: &[u8])
        ensures
            final(self)@ == old(self)@ + data@,
    {
        self.state.extend_from_slice(data);
        proof {
            assert(self.state@ =~= old(self)@ + data@);
        }
    }

    /// Appends the eight little-endian bytes of `value`.
    pub fn absorb_u64(&mut self, value: u64)
        ensures
            final(self)@ == old(self)@ + spec_u64_to_le_bytes(value),
    {
        let bytes = u64_to_le_bytes(value);
        self.state.extend_from_slice(bytes.as_slice());
        proof {
            assert(self.state@ =~= old(self)@ + spec_u64_to_le_bytes(value));
        }
    }

    /// Appends the 32 bytes of `hash`.
    pub fn absorb_hash(&mut self, hash: &[u8; 32])
        ensures
            final(self)@ == old(self)@ + hash@,
    {
        self.state.extend_from_slice(hash.as_slice());
        proof {
            assert(self.state@ =~= old(self)@ + hash@);
        }
    }

    /// The first eight bytes of the digest of everything absorbed, read little-endian.
    pub fn squeeze_challenge(&self) -> (r: u64)
        ensures
            r == challenge_of(sha256(self@)),
    {
        let hash = sha256_digest(self.state.as_slice());
        let mut head: Vec<u8> = Vec::new();
        let mut i: usize = 0;
        while i < 8
            invariant
                i <= 8,
                hash@.len() == 32,
                head@ == hash@.take(i as int),
            decreases 8 - i,
        {
            head.push(hash[i]);
            proof {
                assert(head@ =~= hash@.take(i as int + 1));
            }
            i = i + 1;
        }
        u64_from_le_bytes(head.as_slice())
    }

    /// The digest of everything absorbed.
    pub fn squeeze_hash(&self) -> (r: [u8; 32])
        ensures
            r@ == sha256(self@),
    {
        sha256_digest(self.state.as_slice())
    }
}

} // verus!
