//! Path ORAM: blocks live in a binary tree of buckets or in a stash; every access reads and
//! rewrites one whole root-to-leaf path, and the accessed block moves to a fresh random leaf.
use crate::random::random_below;
use std::collections::HashMap;
use vstd::multiset::Multiset;
use vstd::prelude::*;

verus! {

/// Slots per bucket.
pub const BUCKET_SIZE: usize = 4;

/// The id that marks an empty slot.
pub const EMPTY_BLOCK_ID: u64 = 0xFFFF_FFFF_FFFF_FFFF;

/// A block as seen in specifications: `(id, data, leaf)`.
pub type BlockView = (u64, Seq<u8>, usize);

/// The block holds data (its id is not the empty marker).
pub open spec fn is_real(b: BlockView) -> bool {
    b.0 != EMPTY_BLOCK_ID
}

pub open spec fn real_pred() -> spec_fn(BlockView) -> bool {
    |b: BlockView| is_real(b)
}

pub open spec fn id_pred(id: u64) -> spec_fn(BlockView) -> bool {
    |b: BlockView| b.0 == id
}

/// The real blocks of a sequence, in order.
pub open spec fn real_of(s: Seq<BlockView>) -> Seq<BlockView> {
    s.filter(real_pred())
}

/// The view of `Block::empty()`.
pub open spec fn empty_view() -> BlockView {
    (EMPTY_BLOCK_ID, Seq::new(8, |i: int| 0u8), 0usize)
}

/// One unit of data.
#[derive(Debug, Clone)]
pub struct Block {
    pub id: u64,
    pub data: Vec<u8>,
    pub leaf: usize,
}

impl View for Block {
    type V = BlockView;

    open spec fn view(&self) -> BlockView {
        (self.id, self.data@, self.leaf)
    }
}

impl Block {
    pub fn new(id: u64, data: Vec<u8>, leaf: usize) -> (r: Block)
        ensures
            r@ == (id, data@, leaf),
    {
        Block { id, data, leaf }
    }

    /// An empty slot: the empty id, eight zero bytes, leaf 0.
    pub fn empty() -> (r: Block)
        ensures
            r@ == empty_view(),
    {
        let mut data: Vec<u8> = Vec::new();
        let mut i: usize = 0;
        while i < 8
            invariant
                i <= 8,
                data@ == Seq::new(i as nat, |k: int| 0u8),
            decreases 8 - i,
        {
            data.push(0u8);
            i = i + 1;
            proof {
                assert(data@ =~= Seq::new(i as nat, |k: int| 0u8));
            }
        }
        Block { id: EMPTY_BLOCK_ID, data, leaf: 0 }
    }

    pub fn is_empty(&self) -> (r: bool)
        ensures
            r == !is_real(self@),
    {
        self.id == EMPTY_BLOCK_ID
    }

    /// A copy with the same id, data and leaf.
    fn duplicate(&self) -> (r: Block)
        ensures
            r@ == self@,
    {
        let data = self.data.clone();
        proof {
            assert(data@ =~= self.data@);
        }
        Block { id: self.id, data, leaf: self.leaf }
    }
}

/// A node of the tree: a fixed number of slots.
#[derive(Debug, Clone)]
pub struct Bucket {
    pub blocks: Vec<Block>,
}

impl View for Bucket {
    type V = Seq<BlockView>;

    open spec fn view(&self) -> Seq<BlockView> {
        self.blocks@.map_values(|b: Block| b@)
    }
}

impl Bucket {
    /// A bucket of `BUCKET_SIZE` empty slots.
    pub fn new() -> (r: Bucket)
        ensures
            r@ == Seq::new(BUCKET_SIZE as nat, |i: int| empty_view()),
    {
        let mut blocks: Vec<Block> = Vec::new();
        let mut i: usize = 0;
        while i < BUCKET_SIZE
            invariant
                i <= BUCKET_SIZE,
                blocks@.len() == i,
                forall|k: int| 0 <= k < i ==> (#[trigger] blocks@[k])@ == empty_view(),
            decreases BUCKET_SIZE - i,
        {
            blocks.push(Block::empty());
            i = i + 1;
        }
        proof {
            assert(blocks@.map_values(|b: Block| b@) =~= Seq::new(i as nat, |k: int| empty_view()));
        }
        Bucket { blocks }
    }

    /// Puts the block into the first empty slot; `false` (and no change) when all are full.
    pub fn add(&mut self, block: Block) -> (r: bool)
        ensures
            r == (exists|k: int| 0 <= k < old(self)@.len() && !is_real(old(self)@[k])),
            r ==> exists|k: int|
                {
                    &&& 0 <= k < old(self)@.len()
                    &&& !is_real(old(self)@[k])
                    &&& forall|j: int| 0 <= j < k ==> is_real(#[trigger] old(self)@[j])
                    &&& final(self)@ == old(self)@.update(k, block@)
                },
            !r ==> final(self)@ == old(self)@,
    {
        let mut j: usize = 0;
        while j < self.blocks.len()
            invariant
                j <= self.blocks@.len(),
                self@ == old(self)@,
                forall|i: int| 0 <= i < j ==> is_real(#[trigger] old(self)@[i]),
            decreases self.blocks@.len() - j,
        {
            if self.blocks[j].is_empty() {
                let ghost k = j as int;
                assert(!is_real(old(self)@[k]));
                self.blocks.set(j, block);
                proof {
                    assert(self@ =~= old(self)@.update(k, block@));
                }
                return true;
            }
            j = j + 1;
        }
        false
    }

    /// Takes out the first slot holding `block_id`, leaving an empty slot behind.
    pub fn remove(&mut self, block_id: u64) -> (r: Option<Block>)
        ensures
            r is Some == (exists|k: int| 0 <= k < old(self)@.len() && old(self)@[k].0 == block_id),
            r matches Some(b) ==> exists|k: int|
                {
                    &&& 0 <= k < old(self)@.len()
                    &&& old(self)@[k].0 == block_id
                    &&& forall|j: int| 0 <= j < k ==> (#[trigger] old(self)@[j]).0 != block_id
                    &&& b@ == old(self)@[k]
                    &&& final(self)@ == old(self)@.update(k, empty_view())
                },
            r is None ==> final(self)@ == old(self)@,
    {
        let mut j: usize = 0;
        while j < self.blocks.len()
            invariant
                j <= self.blocks@.len(),
                self@ == old(self)@,
                forall|i: int| 0 <= i < j ==> (#[trigger] old(self)@[i]).0 != block_id,
            decreases self.blocks@.len() - j,
        {
            if self.blocks[j].id == block_id {
                let ghost k = j as int;
                assert(old(self)@[k].0 == block_id);
                let block = self.blocks[j].duplicate();
                self.blocks.set(j, Block::empty());
                proof {
                    assert(self@ =~= old(self)@.update(k, empty_view()));
                }
                return Some(block);
            }
            j = j + 1;
        }
        None
    }

    /// The slots that hold real blocks, in slot order.
    pub fn real_blocks(&self) -> (r: Vec<&Block>)
        ensures
            r@.map_values(|b: &Block| b@) == real_of(self@),
    {
        let mut out: Vec<&Block> = Vec::new();
        let mut j: usize = 0;
        while j < self.blocks.len()
            invariant
                j <= self.blocks@.len(),
                out@.map_values(|b: &Block| b@) == real_of(self@.take(j as int)),
            decreases self.blocks@.len() - j,
        {
            proof {
                lemma_take_push_real(self@, j as int);
            }
            if !self.blocks[j].is_empty() {
                out.push(&self.blocks[j]);
            }
            j = j + 1;
            proof {
                assert(out@.map_values(|b: &Block| b@) =~= real_of(self@.take(j as int)));
            }
        }
        proof {
            assert(self@.take(self@.len() as int) =~= self@);
        }
        out
    }

    /// How many slots hold real blocks.
    pub fn count(&self) -> (r: usize)
        ensures
            r == real_of(self@).len(),
    {
        let mut c: usize = 0;
        let mut j: usize = 0;
        while j < self.blocks.len()
            invariant
                j <= self.blocks@.len(),
                c == real_of(self@.take(j as int)).len(),
                c <= j,
            decreases self.blocks@.len() - j,
        {
            proof {
                lemma_take_push_real(self@, j as int);
            }
            if !self.blocks[j].is_empty() {
                c = c + 1;
            }
            j = j + 1;
        }
        proof {
            assert(self@.take(self@.len() as int) =~= self@);
        }
        c
    }
}

/// The real blocks of `s.take(j + 1)` are those of `s.take(j)` and then `s[j]` if real.
proof fn lemma_take_push_real(s: Seq<BlockView>, j: int)
    requires
        0 <= j < s.len(),
    ensures
        real_of(s.take(j + 1)) == if is_real(s[j]) {
            real_of(s.take(j)).push(s[j])
        } else {
            real_of(s.take(j))
        },
{
    assert(s.take(j + 1) =~= s.take(j).push(s[j]));
    s.take(j).lemma_filter_push(s[j], real_pred());
}

/// The nodes from the root (1) down to `node`, each the parent (half) of the next.
pub open spec fn path_to(node: usize) -> Seq<usize>
    decreases node,
{
    if node == 0 {
        seq![]
    } else {
        path_to(node / 2).push(node)
    }
}

/// The real blocks of the path's buckets, node by node in path order.
pub open spec fn path_blocks(tree: Seq<Seq<BlockView>>, path: Seq<usize>) -> Seq<BlockView>
    decreases path.len(),
{
    if path.len() == 0 {
        seq![]
    } else {
        path_blocks(tree, path.drop_last()) + if path.last() < tree.len() {
            real_of(tree[path.last() as int])
        } else {
            seq![]
        }
    }
}

/// The path is strictly increasing, starts at the root and ends at `node`.
proof fn lemma_path_to(node: usize)
    ensures
        forall|i: int, j: int|
            0 <= i < j < path_to(node).len() ==> path_to(node)[i] < path_to(node)[j],
        forall|i: int| 0 <= i < path_to(node).len() ==> 1 <= #[trigger] path_to(node)[i] <= node,
        node >= 1 ==> path_to(node).len() >= 1 && path_to(node).last() == node,
    decreases node,
{
    if node > 0 {
        lemma_path_to(node / 2);
        let p = path_to(node);
        let q = path_to(node / 2);
        assert(p == q.push(node));
        assert forall|i: int, j: int| 0 <= i < j < p.len() implies p[i] < p[j] by {
            if j < q.len() {
                assert(p[i] == q[i] && p[j] == q[j]);
            } else {
                assert(p[i] == q[i]);
            }
        }
        assert forall|i: int| 0 <= i < p.len() implies 1 <= #[trigger] p[i] <= node by {
            if i < q.len() {
                assert(p[i] == q[i]);
            }
        }
    }
}

/// Buckets off the path do not matter to the path's blocks.
proof fn lemma_path_blocks_frame(t1: Seq<Seq<BlockView>>, t2: Seq<Seq<BlockView>>, path: Seq<usize>)
    requires
        t1.len() == t2.len(),
        forall|k: int| 0 <= k < path.len() && path[k] < t1.len() ==> t1[path[k] as int] == t2[path[k] as int],
    ensures
        path_blocks(t1, path) == path_blocks(t2, path),
    decreases path.len(),
{
    if path.len() > 0 {
        lemma_path_blocks_frame(t1, t2, path.drop_last());
    }
}

/// Replacing the bucket of one node that occurs once on the path swaps its real blocks in the
/// path's multiset.
proof fn lemma_path_blocks_update(
    t: Seq<Seq<BlockView>>,
    path: Seq<usize>,
    m: int,
    nb: Seq<BlockView>,
)
    requires
        0 <= m < path.len(),
        path[m] < t.len(),
        forall|i: int, j: int| 0 <= i < j < path.len() ==> path[i] < path[j],
    ensures
        path_blocks(t.update(path[m] as int, nb), path).to_multiset().add(
            real_of(t[path[m] as int]).to_multiset(),
        ) == path_blocks(t, path).to_multiset().add(real_of(nb).to_multiset()),
    decreases path.len(),
{
    let t2 = t.update(path[m] as int, nb);
    let pre = path.drop_last();
    assert(path_blocks(t2, path) == path_blocks(t2, pre) + if path.last() < t2.len() {
        real_of(t2[path.last() as int])
    } else {
        seq![]
    });
    assert(path_blocks(t, path) == path_blocks(t, pre) + if path.last() < t.len() {
        real_of(t[path.last() as int])
    } else {
        seq![]
    });
    if m == path.len() - 1 {
        assert forall|k: int| 0 <= k < pre.len() && pre[k] < t.len() implies t[pre[k] as int]
            == t2[pre[k] as int] by {
            assert(pre[k] < path[m]);
        }
        lemma_path_blocks_frame(t, t2, pre);
        vstd::seq_lib::lemma_multiset_commutative(path_blocks(t, pre), real_of(t[path[m] as int]));
        vstd::seq_lib::lemma_multiset_commutative(path_blocks(t2, pre), real_of(nb));
        assert(path_blocks(t2, path).to_multiset().add(real_of(t[path[m] as int]).to_multiset())
            =~= path_blocks(t, path).to_multiset().add(real_of(nb).to_multiset()));
    } else {
        lemma_path_blocks_update(t, pre, m, nb);
        assert(pre[m] == path[m]);
        assert(t.update(pre[m] as int, nb) == t2);
        let last = path.last();
        assert(last != path[m]) by {
            assert(path[m] < path[path.len() - 1]);
        }
        let tail = if last < t.len() {
            real_of(t[last as int])
        } else {
            seq![]
        };
        assert(tail == if last < t2.len() {
            real_of(t2[last as int])
        } else {
            seq![]
        });
        vstd::seq_lib::lemma_multiset_commutative(path_blocks(t, pre), tail);
        vstd::seq_lib::lemma_multiset_commutative(path_blocks(t2, pre), tail);
        let ma = path_blocks(t2, pre).to_multiset();
        let mb = path_blocks(t, pre).to_multiset();
        let mx = real_of(t[path[m] as int]).to_multiset();
        let my = real_of(nb).to_multiset();
        let mt = tail.to_multiset();
        assert(path_blocks(t2, path) == path_blocks(t2, pre) + tail);
        assert(path_blocks(t, path) == path_blocks(t, pre) + tail);
        assert forall|v: BlockView| #[trigger] ma.add(mt).add(mx).count(v) == mb.add(mt).add(
            my,
        ).count(v) by {
            assert(ma.add(mx).count(v) == mb.add(my).count(v));
        }
        assert(ma.add(mt).add(mx) =~= mb.add(mt).add(my));
    }
}

/// The empty sequence has the empty multiset.
proof fn lemma_empty_to_multiset<A>()
    ensures
        Seq::<A>::empty().to_multiset() =~= Multiset::<A>::empty(),
{
    assert forall|a: A| Seq::<A>::empty().to_multiset().count(a) == 0 by {
        vstd::seq_lib::to_multiset_contains(Seq::<A>::empty(), a);
    }
}

/// Filtering a one-element sequence keeps it exactly when the element passes.
proof fn lemma_filter_singleton<A>(v: A, p: spec_fn(A) -> bool)
    ensures
        seq![v].filter(p) == if p(v) {
            seq![v]
        } else {
            Seq::<A>::empty()
        },
{
    assert(seq![v] =~= Seq::<A>::empty().push(v));
    Seq::<A>::empty().lemma_filter_push(v, p);
    assert(Seq::<A>::empty().filter(p) =~= Seq::<A>::empty()) by {
        reveal(Seq::filter);
    }
}

/// Putting a real block into an empty slot adds exactly that block to the real blocks.
proof fn lemma_fill_slot(b: Seq<BlockView>, k: int, x: BlockView)
    requires
        0 <= k < b.len(),
        !is_real(b[k]),
        is_real(x),
    ensures
        real_of(b.update(k, x)).to_multiset() == real_of(b).to_multiset().insert(x),
        real_of(b.update(k, x)).len() == real_of(b).len() + 1,
{
    let b2 = b.update(k, x);
    assert(b =~= b.take(k) + seq![b[k]] + b.skip(k + 1));
    assert(b2 =~= b.take(k) + seq![x] + b.skip(k + 1));
    lemma_filter_singleton(b[k], real_pred());
    lemma_filter_singleton(x, real_pred());
    let a = real_of(b.take(k));
    let c = real_of(b.skip(k + 1));
    assert(real_of(b) == a + Seq::<BlockView>::empty() + c);
    assert(real_of(b2) == a + seq![x] + c);
    vstd::seq_lib::lemma_multiset_commutative(a, c);
    vstd::seq_lib::lemma_multiset_commutative(a + seq![x], c);
    vstd::seq_lib::lemma_multiset_commutative(a, seq![x]);
    assert(a + Seq::<BlockView>::empty() =~= a);
    assert(seq![x].to_multiset() =~= Multiset::<BlockView>::empty().insert(x)) by {
        vstd::seq_lib::to_multiset_build(Seq::<BlockView>::empty(), x);
        lemma_empty_to_multiset::<BlockView>();
        assert(seq![x] =~= Seq::<BlockView>::empty().push(x));
    }
    assert(real_of(b2).to_multiset() =~= real_of(b).to_multiset().insert(x));
}

/// The views of a vector of blocks.
pub open spec fn views(v: Seq<Block>) -> Seq<BlockView> {
    v.map_values(|b: Block| b@)
}

/// Every block's leaf is below `n`.
pub open spec fn leaves_below(s: Seq<BlockView>, n: nat) -> bool {
    forall|j: int| 0 <= j < s.len() ==> (#[trigger] s[j]).2 < n
}

/// Every bucket has `BUCKET_SIZE` slots whose leaves are below `n`.
pub open spec fn tree_shape_ok(t: Seq<Seq<BlockView>>, n: nat) -> bool {
    forall|i: int| 0 <= i < t.len() ==> (#[trigger] t[i]).len() == BUCKET_SIZE && leaves_below(t[i], n)
}

/// The blocks with id `id` among the stash followed by the real blocks of the path, in that
/// order.
pub open spec fn visible(
    stash: Seq<BlockView>,
    tree: Seq<Seq<BlockView>>,
    path: Seq<usize>,
    id: u64,
) -> Seq<BlockView> {
    (stash + path_blocks(tree, path)).filter(id_pred(id))
}

/// The total number of real blocks in the buckets.
pub open spec fn tree_real_count(t: Seq<Seq<BlockView>>) -> nat
    decreases t.len(),
{
    if t.len() == 0 {
        0
    } else {
        tree_real_count(t.drop_last()) + real_of(t.last()).len()
    }
}

/// The leaf a block belongs to: the one the position map holds for its id, else its own.
pub open spec fn home_leaf(positions: Map<u64, usize>, b: BlockView) -> usize {
    if positions.contains_key(b.0) {
        positions[b.0]
    } else {
        b.2
    }
}

/// What stays of `local` when node `idx`, with `free` empty slots, takes in, in order, each
/// real block whose path (in a tree of `leaf_count` leaves) runs through it, while a slot is
/// free; empty blocks are dropped, the other blocks stay in order.
pub open spec fn evict_rest(
    positions: Map<u64, usize>,
    leaf_count: nat,
    idx: usize,
    local: Seq<BlockView>,
    free: nat,
) -> Seq<BlockView>
    decreases local.len(),
{
    if local.len() == 0 {
        seq![]
    } else {
        let b = local[0];
        let rest = local.drop_first();
        if !is_real(b) {
            evict_rest(positions, leaf_count, idx, rest, free)
        } else if free > 0 && path_to((leaf_count + home_leaf(positions, b)) as usize).contains(idx) {
            evict_rest(positions, leaf_count, idx, rest, (free - 1) as nat)
        } else {
            seq![b] + evict_rest(positions, leaf_count, idx, rest, free)
        }
    }
}

/// What stays of `stash` once the nodes `path[k - 1]`, ..., `path[0]` of the tree have, in that
/// order, each taken in what they can (see `evict_rest`), each node starting from the empty
/// slots it has in `buckets`; a node outside the tree takes nothing.
pub open spec fn write_back(
    positions: Map<u64, usize>,
    leaf_count: nat,
    buckets: Seq<Seq<BlockView>>,
    path: Seq<usize>,
    stash: Seq<BlockView>,
    k: nat,
) -> Seq<BlockView>
    decreases k,
{
    if k == 0 {
        stash
    } else {
        let idx = path[k - 1];
        let rest = if idx < buckets.len() {
            evict_rest(
                positions,
                leaf_count,
                idx,
                stash,
                (BUCKET_SIZE - real_of(buckets[idx as int]).len()) as nat,
            )
        } else {
            stash
        };
        write_back(positions, leaf_count, buckets, path, rest, (k - 1) as nat)
    }
}

/// The block carries the data that `m` holds for its id.
pub open spec fn block_fits(m: Map<u64, Seq<u8>>, b: BlockView) -> bool {
    m.contains_key(b.0) && b.1 == m[b.0]
}

/// Every stash block is real and carries the data `m` holds for its id.
pub open spec fn stash_fits(m: Map<u64, Seq<u8>>, s: Seq<BlockView>) -> bool {
    forall|j: int| 0 <= j < s.len() ==> is_real(#[trigger] s[j]) && block_fits(m, s[j])
}

/// Every real block in the buckets carries the data `m` holds for its id and lies on the
/// path to the leaf that `p` assigns to its id.
pub open spec fn tree_fits(
    m: Map<u64, Seq<u8>>,
    p: Map<u64, usize>,
    leaf_count: nat,
    t: Seq<Seq<BlockView>>,
) -> bool {
    forall|i: int, q: int|
        0 <= i < t.len() && 0 <= q < t[i].len() && is_real(#[trigger] t[i][q]) ==> {
            &&& block_fits(m, t[i][q])
            &&& path_to((leaf_count + p[t[i][q].0]) as usize).contains(i as usize)
        }
}

/// Some block with id `k` is in the stash or in a bucket.
pub open spec fn holds_copy(s: Seq<BlockView>, t: Seq<Seq<BlockView>>, k: u64) -> bool {
    ||| exists|j: int| 0 <= j < s.len() && (#[trigger] s[j]).0 == k
    ||| exists|i: int, q: int| 0 <= i < t.len() && 0 <= q < t[i].len() && (#[trigger] t[i][q]).0 == k
}

/// The stored data `m` matches the blocks: its ids are the mapped ids but the empty-slot id,
/// every block carries the data of its id, every block in the tree lies on its id's path, and
/// every stored id has exactly one block.
pub open spec fn consistent(
    m: Map<u64, Seq<u8>>,
    p: Map<u64, usize>,
    leaf_count: nat,
    s: Seq<BlockView>,
    t: Seq<Seq<BlockView>>,
) -> bool {
    &&& forall|k: u64|
        #![trigger m.contains_key(k)]
        #![trigger p.contains_key(k)]
        m.contains_key(k) <==> (p.contains_key(k) && k != EMPTY_BLOCK_ID)
    &&& stash_fits(m, s)
    &&& tree_fits(m, p, leaf_count, t)
    &&& forall|k: u64| #[trigger] m.contains_key(k) ==> holds_copy(s, t, k)
    &&& forall|k: u64| #[trigger] m.contains_key(k) ==> copies_in(s, t, k) == 1
}

/// The tree of buckets, the stash and the position map.
pub struct PathOram {
    tree: Vec<Bucket>,
    position_map: HashMap<u64, usize>,
    stash: Vec<Block>,
    pub height: usize,
    num_leaves: usize,
    model: Ghost<Map<u64, Seq<u8>>>,
}

impl View for PathOram {
    type V = Map<u64, Seq<u8>>;

    /// The data of the last write of each id (writes of the empty-slot id store nothing).
    closed spec fn view(&self) -> Map<u64, Seq<u8>> {
        self.model@
    }
}

impl PathOram {
    /// The shape is right and the stored data matches the blocks.
    pub closed spec fn wf(self) -> bool {
        &&& self.shape_ok()
        &&& consistent(
            self.model@,
            self.positions(),
            self.leaf_count(),
            self.stash_blocks(),
            self.buckets(),
        )
    }

    /// How many real blocks with id `k` the stash and the buckets hold.
    pub closed spec fn copies(self, k: u64) -> nat {
        copies_in(self.stash_blocks(), self.buckets(), k)
    }

    /// The number of leaves of the tree.
    pub closed spec fn leaf_count(self) -> nat {
        self.num_leaves as nat
    }

    /// The height recorded at construction.
    pub closed spec fn tree_height(self) -> nat {
        self.height as nat
    }

    /// The buckets, indexed by node number (the root is node 1).
    pub closed spec fn buckets(self) -> Seq<Seq<BlockView>> {
        self.tree@.map_values(|b: Bucket| b@)
    }

    /// The stash, in order.
    pub closed spec fn stash_blocks(self) -> Seq<BlockView> {
        views(self.stash@)
    }

    /// The leaf assigned to each id that has been written.
    pub closed spec fn positions(self) -> Map<u64, usize> {
        self.position_map@
    }

    /// The node path from the root to `leaf`.
    pub open spec fn path_of(self, leaf: usize) -> Seq<usize> {
        path_to((self.leaf_count() + leaf) as usize)
    }

    /// The tree has `2 * leaf_count` full-size buckets, and every leaf number in use (in the
    /// tree, the stash and the position map) is below `leaf_count`.
    pub closed spec fn shape_ok(self) -> bool {
        &&& self.num_leaves >= 1
        &&& 2 * self.num_leaves <= usize::MAX
        &&& self.tree@.len() == 2 * self.num_leaves
        &&& tree_shape_ok(self.buckets(), self.num_leaves as nat)
        &&& leaves_below(self.stash_blocks(), self.num_leaves as nat)
        &&& forall|k: u64| #[trigger]
            self.position_map@.contains_key(k) ==> self.position_map@[k] < self.num_leaves
    }

    /// What a read of `id` returns: nothing for an id never written, else the data of the
    /// first block with that id among the stash and then the real blocks along the id's path.
    pub open spec fn read_result(self, id: u64) -> Option<Seq<u8>> {
        if !self.positions().contains_key(id) {
            None
        } else {
            let v = visible(
                self.stash_blocks(),
                self.buckets(),
                self.path_of(self.positions()[id]),
                id,
            );
            if v.len() > 0 {
                Some(v[0].1)
            } else {
                None
            }
        }
    }

    /// The total number of real blocks in the tree and the stash.
    pub open spec fn real_total(self) -> nat {
        tree_real_count(self.buckets()) + real_of(self.stash_blocks()).len()
    }

    /// A tree with `2^height` leaves, `height = ceil(log2(capacity)) + 1`, all buckets empty.
    pub fn new(capacity: usize) -> (r: PathOram)
        requires
            capacity <= usize::MAX / 8 + 1,
        ensures
            r.wf(),
            r.tree_height() == ceil_log2(capacity as nat) + 1,
            r.leaf_count() == vstd::arithmetic::power2::pow2(r.tree_height()),
            r.positions() == Map::<u64, usize>::empty(),
            r.stash_blocks() == Seq::<BlockView>::empty(),
            forall|i: int| 0 <= i < r.buckets().len() ==> real_of(#[trigger] r.buckets()[i]).len() == 0,
    {
        let mut c = capacity;
        let mut h: usize = 0;
        proof {
            lemma_ceil_log2_bound(capacity as nat);
        }
        while c > 1
            invariant
                c <= capacity,
                capacity <= usize::MAX / 8 + 1,
                h + ceil_log2(c as nat) == ceil_log2(capacity as nat),
                ceil_log2(capacity as nat) <= capacity,
            decreases c,
        {
            c = (c + 1) / 2;
            h = h + 1;
        }
        let height = h + 1;
        let mut num_leaves: usize = 1;
        let mut i: usize = 0;
        proof {
            vstd::arithmetic::power2::lemma_pow2_unfold(1);
            vstd::arithmetic::power2::lemma2_to64();
        }
        while i < height
            invariant
                i <= height,
                height == ceil_log2(capacity as nat) + 1,
                num_leaves == vstd::arithmetic::power2::pow2(i as nat),
                2 * vstd::arithmetic::power2::pow2(height as nat) <= usize::MAX,
            decreases height - i,
        {
            proof {
                vstd::arithmetic::power2::lemma_pow2_unfold((i + 1) as nat);
                if i + 1 < height {
                    vstd::arithmetic::power2::lemma_pow2_strictly_increases(
                        (i + 1) as nat,
                        height as nat,
                    );
                }
            }
            num_leaves = num_leaves * 2;
            i = i + 1;
        }
        proof {
            vstd::arithmetic::power2::lemma_pow2_pos(height as nat);
        }
        let total_nodes = 2 * num_leaves;
        let mut tree: Vec<Bucket> = Vec::new();
        let mut n: usize = 0;
        while n < total_nodes
            invariant
                n <= total_nodes,
                tree@.len() == n,
                forall|k: int| 0 <= k < n ==> (#[trigger] tree@[k])@ == Seq::new(
                    BUCKET_SIZE as nat,
                    |j: int| empty_view(),
                ),
            decreases total_nodes - n,
        {
            tree.push(Bucket::new());
            n = n + 1;
        }
        let r = PathOram {
            tree,
            position_map: HashMap::new(),
            stash: Vec::new(),
            height,
            num_leaves,
            model: Ghost(Map::empty()),
        };
        proof {
            assert(r.stash_blocks() =~= Seq::<BlockView>::empty());
            assert forall|k: int| 0 <= k < r.buckets().len() implies real_of(
                #[trigger] r.buckets()[k],
            ).len() == 0 by {
                lemma_no_real_blocks(r.buckets()[k]);
            }
        }
        r
    }

    /// A leaf drawn uniformly from `0..leaf_count`.
    fn random_leaf(&self) -> (r: usize)
        requires
            self.num_leaves >= 1,
        ensures
            r < self.leaf_count(),
    {
        random_below(self.num_leaves)
    }

    /// The node numbers from the root down to the node of `leaf`.
    pub fn path_indices(&self, leaf: usize) -> (r: Vec<usize>)
        requires
            self.leaf_count() + leaf <= usize::MAX,
        ensures
            r@ == self.path_of(leaf),
    {
        let n0 = self.num_leaves + leaf;
        let mut desc: Vec<usize> = Vec::new();
        let mut node = n0;
        proof {
            assert(path_to(n0) + desc@.reverse() =~= path_to(n0));
        }
        while node >= 1
            invariant
                path_to(node) + desc@.reverse() == path_to(n0),
            decreases node,
        {
            let ghost before = desc@;
            desc.push(node);
            proof {
                assert(desc@.reverse() =~= seq![node] + before.reverse());
                assert(path_to(node) == path_to(node / 2).push(node));
                assert(path_to(node / 2) + desc@.reverse() =~= path_to(node) + before.reverse());
            }
            node = node / 2;
        }
        proof {
            assert(path_to(0) + desc@.reverse() =~= desc@.reverse());
        }
        let mut indices: Vec<usize> = Vec::new();
        let mut k = desc.len();
        while k > 0
            invariant
                k <= desc@.len(),
                indices@ =~= desc@.reverse().take((desc@.len() - k) as int),
            decreases k,
        {
            k = k - 1;
            indices.push(desc[k]);
        }
        proof {
            assert(desc@.reverse().take(desc@.len() as int) =~= desc@.reverse());
        }
        indices
    }

    /// Moves every real block of the buckets on the path to `leaf` into the stash, in path
    /// order, leaving those buckets without real blocks.
    fn read_path(&mut self, leaf: usize)
        requires
            old(self).shape_ok(),
            leaf < old(self).leaf_count(),
        ensures
            final(self).shape_ok(),
            final(self).leaf_count() == old(self).leaf_count(),
            final(self).positions() == old(self).positions(),
            final(self).height == old(self).height,
            final(self).stash_blocks() == old(self).stash_blocks() + path_blocks(
                old(self).buckets(),
                old(self).path_of(leaf),
            ),
            final(self)@ == old(self)@,
            final(self).buckets().len() == old(self).buckets().len(),
            forall|i: int|
                0 <= i < final(self).buckets().len() ==> if old(self).path_of(leaf).contains(
                    i as usize,
                ) {
                    real_of(#[trigger] final(self).buckets()[i]).len() == 0
                } else {
                    final(self).buckets()[i] == old(self).buckets()[i]
                },
    {
        let indices = self.path_indices(leaf);
        let ghost path = indices@;
        let ghost t0 = self.buckets();
        let ghost s0 = self.stash_blocks();
        proof {
            lemma_path_to((self.num_leaves + leaf) as usize);
        }
        let mut k: usize = 0;
        while k < indices.len()
            invariant
                path == indices@,
                path == old(self).path_of(leaf),
                t0 == old(self).buckets(),
                s0 == old(self).stash_blocks(),
                k <= path.len(),
                self.shape_ok(),
                self.leaf_count() == old(self).leaf_count(),
                self.positions() == old(self).positions(),
                self.height == old(self).height,
                forall|a: int, b: int| 0 <= a < b < path.len() ==> path[a] < path[b],
                self.stash_blocks() == s0 + path_blocks(t0, path.take(k as int)),
                self.buckets().len() == t0.len(),
                self@ == old(self)@,
                forall|i: int|
                    0 <= i < self.buckets().len() ==> if path.take(k as int).contains(i as usize) {
                        real_of(#[trigger] self.buckets()[i]).len() == 0
                    } else {
                        self.buckets()[i] == t0[i]
                    },
            decreases path.len() - k,
        {
            let idx = indices[k];
            let ghost before_stash = self.stash_blocks();
            let ghost before_tree = self.buckets();
            proof {
                assert(path.take(k as int + 1).drop_last() =~= path.take(k as int));
                assert(path.take(k as int + 1).last() == idx);
                assert(!path.take(k as int).contains(idx)) by {
                    if path.take(k as int).contains(idx) {
                        let a = choose|a: int| 0 <= a < k && #[trigger] path.take(k as int)[a] == idx;
                        assert(path[a] < path[k as int]);
                    }
                }
            }
            if idx < self.tree.len() {
                self.drain_node(idx);
                proof {
                    assert(before_tree[idx as int] == t0[idx as int]);
                }
            }
            proof {
                assert forall|i: int|
                    0 <= i < self.buckets().len() implies if path.take(k as int + 1).contains(
                    i as usize,
                ) {
                    real_of(#[trigger] self.buckets()[i]).len() == 0
                } else {
                    self.buckets()[i] == t0[i]
                } by {
                    if path.take(k as int + 1).contains(i as usize) {
                        if i != idx as int {
                            let a = choose|a: int|
                                0 <= a < k + 1 && #[trigger] path.take(k as int + 1)[a] == i as usize;
                            assert(a != k as int);
                            assert(path.take(k as int)[a] == i as usize);
                        }
                    } else {
                        assert(i != idx as int) by {
                            assert(path.take(k as int + 1)[k as int] == idx);
                        }
                        assert(!path.take(k as int).contains(i as usize)) by {
                            if path.take(k as int).contains(i as usize) {
                                let a = choose|a: int|
                                    0 <= a < k && #[trigger] path.take(k as int)[a] == i as usize;
                                assert(path.take(k as int + 1)[a] == i as usize);
                            }
                        }
                    }
                }
            }
            k = k + 1;
        }
        proof {
            assert(path.take(path.len() as int) =~= path);
        }
    }

    /// Moves the real blocks of node `idx` to the end of the stash, in slot order.
    fn drain_node(&mut self, idx: usize)
        requires
            old(self).shape_ok(),
            idx < old(self).buckets().len(),
        ensures
            final(self).shape_ok(),
            final(self).leaf_count() == old(self).leaf_count(),
            final(self).positions() == old(self).positions(),
            final(self).height == old(self).height,
            final(self).stash_blocks() == old(self).stash_blocks() + real_of(
                old(self).buckets()[idx as int],
            ),
            final(self)@ == old(self)@,
            final(self).buckets() == old(self).buckets().update(
                idx as int,
                final(self).buckets()[idx as int],
            ),
            real_of(final(self).buckets()[idx as int]).len() == 0,
    {
        let mut bucket = Bucket { blocks: Vec::new() };
        std::mem::swap(&mut bucket, &mut self.tree[idx]);
        let ghost b0 = bucket@;
        let ghost tree_mid = self.tree@;
        proof {
            assert(old(self).buckets()[idx as int] == b0);
        }
        let n = bucket.blocks.len();
        let mut j: usize = 0;
        while j < n
            invariant
                n == bucket.blocks@.len(),
                j <= n,
                b0.len() == n,
                forall|a: int| 0 <= a < j ==> !is_real(#[trigger] bucket@[a]) && bucket@[a].2 < self.num_leaves,
                forall|a: int| j <= a < n ==> #[trigger] bucket@[a] == b0[a],
                self.stash_blocks() == old(self).stash_blocks() + real_of(b0.take(j as int)),
                leaves_below(self.stash_blocks(), self.num_leaves as nat),
                leaves_below(b0, self.num_leaves as nat),
                self.num_leaves == old(self).num_leaves,
                self.num_leaves >= 1,
                self.tree@ == tree_mid,
                tree_mid.len() == old(self).tree@.len(),
                self.position_map@ == old(self).position_map@,
                self.height == old(self).height,
                self@ == old(self)@,
            decreases n - j,
        {
            proof {
                lemma_take_push_real(b0, j as int);
            }
            if !bucket.blocks[j].is_empty() {
                let b = bucket.blocks[j].duplicate();
                let ghost st = self.stash_blocks();
                let ghost prev = bucket@;
                assert(bucket@[j as int] == b0[j as int]);
                assert(bucket.blocks@[j as int]@ == b0[j as int]);
                self.stash.push(b);
                bucket.blocks.set(j, Block::empty());
                proof {
                    assert(self.stash_blocks() =~= st.push(b0[j as int]));
                    assert(bucket@ =~= prev.update(j as int, empty_view()));
                }
            } else {
                proof {
                    assert(bucket@[j as int] == b0[j as int]);
                    assert(b0[j as int].2 < self.num_leaves);
                }
            }
            j = j + 1;
        }
        proof {
            assert(b0.take(n as int) =~= b0);
            assert(real_of(bucket@).len() == 0) by {
                lemma_no_real_blocks(bucket@);
            }
        }
        std::mem::swap(&mut bucket, &mut self.tree[idx]);
        proof {
            assert(self.buckets() =~= old(self).buckets().update(idx as int, self.buckets()[idx as int]));
        }
    }

    /// Pushes each real block of `local`, in order, into node `idx` if that node lies on the
    /// block's path and has a free slot; returns the blocks that stay behind, in order.
    fn evict_into_node(&mut self, idx: usize, local: Vec<Block>) -> (next: Vec<Block>)
        requires
            old(self).shape_ok(),
            idx < old(self).buckets().len(),
            leaves_below(views(local@), old(self).leaf_count()),
        ensures
            final(self).shape_ok(),
            final(self).leaf_count() == old(self).leaf_count(),
            final(self).positions() == old(self).positions(),
            final(self).tree_height() == old(self).tree_height(),
            final(self).stash_blocks() == old(self).stash_blocks(),
            final(self)@ == old(self)@,
            final(self).buckets() == old(self).buckets().update(
                idx as int,
                final(self).buckets()[idx as int],
            ),
            real_of(views(next@)).to_multiset().add(
                real_of(final(self).buckets()[idx as int]).to_multiset(),
            ) == real_of(views(local@)).to_multiset().add(
                real_of(old(self).buckets()[idx as int]).to_multiset(),
            ),
            leaves_below(views(next@), old(self).leaf_count()),
            views(next@) == evict_rest(
                old(self).positions(),
                old(self).leaf_count(),
                idx,
                views(local@),
                (BUCKET_SIZE - real_of(old(self).buckets()[idx as int]).len()) as nat,
            ),
            forall|j: int|
                0 <= j < views(next@).len() ==> is_real(#[trigger] views(next@)[j]) && views(
                    local@,
                ).contains(views(next@)[j]),
            forall|q: int|
                0 <= q < final(self).buckets()[idx as int].len() && is_real(
                    #[trigger] final(self).buckets()[idx as int][q],
                ) ==> final(self).buckets()[idx as int][q] == old(self).buckets()[idx as int][q] || (
                views(local@).contains(final(self).buckets()[idx as int][q]) && path_to(
                    (old(self).leaf_count() + home_leaf(
                        old(self).positions(),
                        final(self).buckets()[idx as int][q],
                    )) as usize,
                ).contains(idx)),
    {
        let ghost lv = views(local@);
        let ghost b0 = self.buckets()[idx as int];
        let ghost pos = old(self).positions();
        let ghost lc = old(self).leaf_count();
        let ghost free0 = (BUCKET_SIZE - real_of(b0).len()) as nat;
        let mut next: Vec<Block> = Vec::new();
        let n = local.len();
        let mut j: usize = 0;
        proof {
            assert(lv.skip(0) =~= lv);
            assert(views(next@) + evict_rest(pos, lc, idx, lv, free0) =~= evict_rest(
                pos,
                lc,
                idx,
                lv,
                free0,
            ));
            lemma_empty_to_multiset::<BlockView>();
            assert(real_of(views(next@)) =~= Seq::<BlockView>::empty()) by {
                assert(views(next@) =~= Seq::<BlockView>::empty());
                lemma_no_real_blocks(views(next@));
            }
        }
        while j < n
            invariant
                n == local@.len(),
                lv == views(local@),
                j <= n,
                self.shape_ok(),
                self.leaf_count() == old(self).leaf_count(),
                self.positions() == old(self).positions(),
                self.tree_height() == old(self).tree_height(),
                self.stash_blocks() == old(self).stash_blocks(),
                idx < self.buckets().len(),
                self.buckets().len() == old(self).buckets().len(),
                b0 == old(self).buckets()[idx as int],
                self.buckets() == old(self).buckets().update(idx as int, self.buckets()[idx as int]),
                leaves_below(lv, self.leaf_count()),
                leaves_below(views(next@), self.leaf_count()),
                real_of(views(next@)).to_multiset().add(real_of(lv.skip(j as int)).to_multiset()).add(
                    real_of(self.buckets()[idx as int]).to_multiset(),
                ) == real_of(lv).to_multiset().add(real_of(b0).to_multiset()),
                pos == self.positions(),
                lc == self.leaf_count(),
                self@ == old(self)@,
                free0 == (BUCKET_SIZE - real_of(b0).len()) as nat,
                views(next@) + evict_rest(
                    pos,
                    lc,
                    idx,
                    lv.skip(j as int),
                    (BUCKET_SIZE - real_of(self.buckets()[idx as int]).len()) as nat,
                ) == evict_rest(pos, lc, idx, lv, free0),
                forall|q: int|
                    0 <= q < self.buckets()[idx as int].len() && is_real(
                        #[trigger] self.buckets()[idx as int][q],
                    ) ==> self.buckets()[idx as int][q] == b0[q] || (lv.contains(
                        self.buckets()[idx as int][q],
                    ) && path_to((lc + home_leaf(pos, self.buckets()[idx as int][q])) as usize).contains(
                        idx,
                    )),
            decreases n - j,
        {
            let block = local[j].duplicate();
            let ghost x = lv[j as int];
            let ghost nv = views(next@);
            let ghost cur = self.buckets()[idx as int];
            let ghost fr = (BUCKET_SIZE - real_of(cur).len()) as nat;
            let ghost tail = evict_rest(pos, lc, idx, lv.skip(j as int + 1), fr);
            proof {
                lemma_real_skip(lv, j as int);
                assert(block@ == x);
                assert(lv.skip(j as int)[0] == x);
                assert(lv.skip(j as int).drop_first() =~= lv.skip(j as int + 1));
                assert(tree_shape_ok(self.buckets(), self.leaf_count()));
                assert(cur.len() == BUCKET_SIZE);
                cur.lemma_filter_len(real_pred());
                assert(real_of(cur).len() <= BUCKET_SIZE);
            }
            if !block.is_empty() {
                let block_leaf = match self.position_map.get(&block.id) {
                    Some(l) => *l,
                    None => block.leaf,
                };
                let block_path = self.path_indices(block_leaf);
                proof {
                    assert(block_leaf == home_leaf(pos, x));
                    assert(block_path@ == path_to((lc + home_leaf(pos, x)) as usize));
                }
                if vec_contains(&block_path, idx) && self.tree[idx].count() < BUCKET_SIZE {
                    proof {
                        lemma_free_slot_exists(cur);
                    }
                    let ghost tree_before = self.tree@;
                    let ghost buckets_before = self.buckets();
                    self.tree[idx].add(block);
                    proof {
                        assert(self.tree@ =~= tree_before.update(idx as int, self.tree@[idx as int]));
                        assert(buckets_before.len() == old(self).buckets().len());
                        assert(self.buckets().len() == old(self).buckets().len());
                        assert forall|i: int| 0 <= i < self.buckets().len() && i != idx as int implies #[trigger] self.buckets()[i]
                            == old(self).buckets()[i] by {
                            assert(buckets_before == old(self).buckets().update(idx as int, cur));
                            assert(buckets_before[i] == old(self).buckets()[i]);
                            assert(self.tree@[i] == tree_before[i]);
                            assert(self.buckets()[i] == self.tree@[i]@);
                            assert(tree_before[i]@ == buckets_before[i]);
                        }
                        let k = choose|k: int|
                            {
                                &&& 0 <= k < cur.len()
                                &&& !is_real(cur[k])
                                &&& forall|i: int| 0 <= i < k ==> is_real(#[trigger] cur[i])
                                &&& self.buckets()[idx as int] == cur.update(k, x)
                            };
                        lemma_fill_slot(cur, k, x);
                        assert(self.buckets() =~= old(self).buckets().update(
                            idx as int,
                            self.buckets()[idx as int],
                        ));
                        assert forall|i: int| 0 <= i < self.buckets().len() implies (
                        #[trigger] self.buckets()[i]).len() == BUCKET_SIZE && leaves_below(
                            self.buckets()[i],
                            self.num_leaves as nat,
                        ) by {
                            if i == idx as int {
                                assert(tree_shape_ok(buckets_before, self.num_leaves as nat));
                                assert(buckets_before[idx as int] == cur);
                                assert(cur.len() == BUCKET_SIZE && leaves_below(cur, self.num_leaves as nat));
                                assert(x.2 < self.num_leaves);
                                let nbk = cur.update(k, x);
                                assert(self.buckets()[idx as int] == nbk);
                                assert forall|q: int| 0 <= q < nbk.len() implies (#[trigger] nbk[q]).2
                                    < self.num_leaves by {
                                    if q != k {
                                        assert(nbk[q] == cur[q]);
                                    }
                                }
                            } else {
                                assert(tree_shape_ok(buckets_before, self.num_leaves as nat));
                                assert(self.tree@[i] == tree_before[i]);
                                assert(self.buckets()[i] == buckets_before[i]);
                                assert(buckets_before[i].len() == BUCKET_SIZE);
                            }
                        }
                        let rs = real_of(lv.skip(j as int + 1)).to_multiset();
                        assert(real_of(views(next@)).to_multiset().add(rs).add(
                            real_of(self.buckets()[idx as int]).to_multiset(),
                        ) =~= real_of(nv).to_multiset().add(real_of(lv.skip(j as int)).to_multiset()).add(
                            real_of(cur).to_multiset(),
                        ));
                        assert(real_of(self.buckets()[idx as int]).len() == real_of(cur).len() + 1);
                        let nb = self.buckets()[idx as int];
                        assert(lv.contains(x)) by {
                            assert(lv[j as int] == x);
                        }
                        assert forall|q: int| 0 <= q < nb.len() && is_real(#[trigger] nb[q]) implies nb[q]
                            == b0[q] || (lv.contains(nb[q]) && path_to(
                            (lc + home_leaf(pos, nb[q])) as usize,
                        ).contains(idx)) by {
                            if q != k {
                                assert(nb[q] == cur[q]);
                            }
                        }
                        assert(evict_rest(pos, lc, idx, lv.skip(j as int), fr) == evict_rest(
                            pos,
                            lc,
                            idx,
                            lv.skip(j as int + 1),
                            (fr - 1) as nat,
                        ));
                    }
                } else {
                    next.push(block);
                    proof {
                        assert(views(next@) =~= nv.push(x));
                        lemma_real_push(nv, x);
                        let rs = real_of(lv.skip(j as int + 1)).to_multiset();
                        assert(real_of(views(next@)).to_multiset().add(rs).add(
                            real_of(self.buckets()[idx as int]).to_multiset(),
                        ) =~= real_of(nv).to_multiset().add(real_of(lv.skip(j as int)).to_multiset()).add(
                            real_of(cur).to_multiset(),
                        ));
                        assert(evict_rest(pos, lc, idx, lv.skip(j as int), fr) == seq![x] + tail);
                        assert(views(next@) + tail =~= nv + (seq![x] + tail));
                    }
                }
            } else {
                proof {
                    assert(evict_rest(pos, lc, idx, lv.skip(j as int), fr) == tail);
                }
            }
            j = j + 1;
        }
        proof {
            assert(lv.skip(n as int) =~= Seq::<BlockView>::empty());
            lemma_no_real_blocks(lv.skip(n as int));
            assert(real_of(lv.skip(n as int)) =~= Seq::<BlockView>::empty());
            lemma_empty_to_multiset::<BlockView>();
            assert(real_of(views(next@)).to_multiset().add(real_of(lv.skip(n as int)).to_multiset())
                =~= real_of(views(next@)).to_multiset());
            assert(views(next@) + Seq::<BlockView>::empty() =~= views(next@));
            lemma_evict_rest_members(pos, lc, idx, lv, free0);
        }
        next
    }

    /// Writes the stash back along the path to `leaf`, deepest node first: each block goes to
    /// the deepest node of that path that also lies on its own path and has a free slot; the
    /// rest stays in the stash.
    fn write_path(&mut self, leaf: usize)
        requires
            old(self).shape_ok(),
            leaf < old(self).leaf_count(),
        ensures
            final(self).shape_ok(),
            final(self).leaf_count() == old(self).leaf_count(),
            final(self).positions() == old(self).positions(),
            final(self).tree_height() == old(self).tree_height(),
            final(self).buckets().len() == old(self).buckets().len(),
            forall|i: int|
                0 <= i < final(self).buckets().len() && !old(self).path_of(leaf).contains(i as usize)
                    ==> #[trigger] final(self).buckets()[i] == old(self).buckets()[i],
            real_of(final(self).stash_blocks()).to_multiset().add(
                path_blocks(final(self).buckets(), old(self).path_of(leaf)).to_multiset(),
            ) == real_of(old(self).stash_blocks()).to_multiset().add(
                path_blocks(old(self).buckets(), old(self).path_of(leaf)).to_multiset(),
            ),
            final(self).stash_blocks() == write_back(
                old(self).positions(),
                old(self).leaf_count(),
                old(self).buckets(),
                old(self).path_of(leaf),
                old(self).stash_blocks(),
                old(self).path_of(leaf).len(),
            ),
            final(self)@ == old(self)@,
            forall|j: int|
                0 <= j < final(self).stash_blocks().len() ==> is_real(
                    #[trigger] final(self).stash_blocks()[j],
                ) && old(self).stash_blocks().contains(final(self).stash_blocks()[j]),
            forall|i: int, q: int|
                0 <= i < final(self).buckets().len() && 0 <= q < final(self).buckets()[i].len()
                    && is_real(#[trigger] final(self).buckets()[i][q]) ==> final(self).buckets()[i][q]
                    == old(self).buckets()[i][q] || (old(self).stash_blocks().contains(
                    final(self).buckets()[i][q],
                ) && path_to(
                    (old(self).leaf_count() + home_leaf(
                        old(self).positions(),
                        final(self).buckets()[i][q],
                    )) as usize,
                ).contains(i as usize)),
    {
        let indices = self.path_indices(leaf);
        let ghost path = indices@;
        let ghost pos = old(self).positions();
        let ghost lc = old(self).leaf_count();
        let ghost b0 = old(self).buckets();
        let ghost s0 = old(self).stash_blocks();
        proof {
            lemma_path_to((self.num_leaves + leaf) as usize);
        }
        let mut local: Vec<Block> = Vec::new();
        std::mem::swap(&mut local, &mut self.stash);
        proof {
            assert(self.stash_blocks() =~= Seq::<BlockView>::empty());
            assert(views(local@) == s0);
            assert(forall|a: int| 0 <= a < path.len() ==> #[trigger] path[a] < b0.len());
        }
        let mut k = indices.len();
        while k > 0
            invariant
                path == indices@,
                path == old(self).path_of(leaf),
                k <= path.len(),
                forall|a: int, b: int| 0 <= a < b < path.len() ==> path[a] < path[b],
                self.shape_ok(),
                self.stash_blocks() == Seq::<BlockView>::empty(),
                self.leaf_count() == old(self).leaf_count(),
                self.positions() == old(self).positions(),
                self.tree_height() == old(self).tree_height(),
                self.buckets().len() == old(self).buckets().len(),
                forall|i: int|
                    0 <= i < self.buckets().len() && !path.contains(i as usize) ==> #[trigger] self.buckets()[i]
                        == old(self).buckets()[i],
                leaves_below(views(local@), self.leaf_count()),
                real_of(views(local@)).to_multiset().add(
                    path_blocks(self.buckets(), path).to_multiset(),
                ) == real_of(old(self).stash_blocks()).to_multiset().add(
                    path_blocks(old(self).buckets(), path).to_multiset(),
                ),
                pos == self.positions(),
                lc == self.leaf_count(),
                b0 == old(self).buckets(),
                s0 == old(self).stash_blocks(),
                write_back(pos, lc, b0, path, views(local@), k as nat) == write_back(
                    pos,
                    lc,
                    b0,
                    path,
                    s0,
                    path.len(),
                ),
                forall|a: int|
                    0 <= a < k && path[a] < b0.len() ==> self.buckets()[#[trigger] path[a] as int]
                        == b0[path[a] as int],
                forall|a: int| 0 <= a < path.len() ==> #[trigger] path[a] < b0.len(),
                path.len() >= 1,
                self@ == old(self)@,
                forall|x: BlockView| #[trigger] views(local@).contains(x) ==> s0.contains(x),
                k < path.len() ==> forall|j: int|
                    0 <= j < views(local@).len() ==> is_real(#[trigger] views(local@)[j]),
                forall|i: int, q: int|
                    0 <= i < self.buckets().len() && 0 <= q < self.buckets()[i].len() && is_real(
                        #[trigger] self.buckets()[i][q],
                    ) ==> self.buckets()[i][q] == b0[i][q] || (s0.contains(self.buckets()[i][q])
                        && path_to((lc + home_leaf(pos, self.buckets()[i][q])) as usize).contains(
                        i as usize,
                    )),
            decreases k,
        {
            k = k - 1;
            let idx = indices[k];
            if idx >= self.tree.len() {
                proof {
                    assert(path[k as int] < b0.len());
                    assert(write_back(pos, lc, b0, path, views(local@), (k + 1) as nat) == write_back(
                        pos,
                        lc,
                        b0,
                        path,
                        views(local@),
                        k as nat,
                    ));
                }
                continue;
            }
            let ghost t = self.buckets();
            let ghost lv = views(local@);
            proof {
                assert(path[k as int] == idx);
                assert(t[idx as int] == b0[idx as int]);
                assert(write_back(pos, lc, b0, path, lv, (k + 1) as nat) == write_back(
                    pos,
                    lc,
                    b0,
                    path,
                    evict_rest(pos, lc, idx, lv, (BUCKET_SIZE - real_of(b0[idx as int]).len()) as nat),
                    k as nat,
                ));
            }
            local = self.evict_into_node(idx, local);
            proof {
                assert forall|x: BlockView| #[trigger] views(local@).contains(x) implies s0.contains(x) by {
                    let jj = choose|jj: int| 0 <= jj < views(local@).len() && views(local@)[jj] == x;
                    assert(lv.contains(views(local@)[jj]));
                }
                assert forall|i: int, q: int|
                    0 <= i < self.buckets().len() && 0 <= q < self.buckets()[i].len() && is_real(
                        #[trigger] self.buckets()[i][q],
                    ) implies self.buckets()[i][q] == b0[i][q] || (s0.contains(self.buckets()[i][q])
                        && path_to((lc + home_leaf(pos, self.buckets()[i][q])) as usize).contains(
                        i as usize,
                    )) by {
                    if i != idx as int {
                        assert(self.buckets()[i] == t[i]);
                    } else {
                        assert(t[i].len() == self.buckets()[i].len()) by {
                            assert(tree_shape_ok(t, lc));
                            assert(tree_shape_ok(self.buckets(), lc));
                        }
                        let x = self.buckets()[i][q];
                        if x != t[i][q] {
                            assert(lv.contains(x));
                        }
                    }
                }
            }
            proof {
                assert forall|a: int| 0 <= a < k && path[a] < b0.len() implies self.buckets()[
                    #[trigger] path[a] as int] == b0[path[a] as int] by {
                    assert(path[a] < path[k as int]);
                }
            }
            proof {
                let nb = self.buckets()[idx as int];
                lemma_path_blocks_update(t, path, k as int, nb);
                assert(t.update(path[k as int] as int, nb) == self.buckets());
                let a1 = real_of(views(local@)).to_multiset();
                let a2 = real_of(nb).to_multiset();
                let a3 = real_of(lv).to_multiset();
                let a4 = real_of(t[idx as int]).to_multiset();
                let p1 = path_blocks(self.buckets(), path).to_multiset();
                let p0 = path_blocks(t, path).to_multiset();
                assert forall|v: BlockView| #[trigger] a1.add(p1).count(v) == a3.add(p0).count(v) by {
                    assert(a1.add(a2).count(v) == a3.add(a4).count(v));
                    assert(p1.add(a4).count(v) == p0.add(a2).count(v));
                }
                assert(a1.add(p1) =~= a3.add(p0));
                assert forall|i: int|
                    0 <= i < self.buckets().len() && !path.contains(i as usize) implies #[trigger] self.buckets()[i]
                        == old(self).buckets()[i] by {
                    assert(path[k as int] == idx);
                    assert(i != idx as int);
                    assert(self.buckets()[i] == t[i]);
                }
            }
        }
        self.stash = local;
        proof {
            assert(self.stash_blocks() == views(local@));
            assert forall|j: int| 0 <= j < views(local@).len() implies is_real(
                #[trigger] views(local@)[j],
            ) && s0.contains(views(local@)[j]) by {
                assert(views(local@).contains(views(local@)[j]));
            }
        }
    }

    /// Stores `data` under `id`: the block gets a fresh random leaf, the path to the leaf the id
    /// had (the fresh one for an id never written) is read, every older copy of the block is
    /// dropped, and that path is written back.
    pub fn write(&mut self, id: u64, data: Vec<u8>)
        requires
            old(self).wf(),
        ensures
            final(self).wf(),
            final(self).leaf_count() == old(self).leaf_count(),
            final(self).tree_height() == old(self).tree_height(),
            final(self).positions().contains_key(id),
            final(self).positions()[id] < final(self).leaf_count(),
            final(self).positions() == old(self).positions().insert(id, final(self).positions()[id]),
            final(self)@ == if id != EMPTY_BLOCK_ID {
                old(self)@.insert(id, data@)
            } else {
                old(self)@
            },
            id != EMPTY_BLOCK_ID ==> final(self).read_result(id) == Some(data@),
            forall|k: u64| k != id ==> #[trigger] final(self).read_result(k) == old(self).read_result(k),
            final(self).buckets().len() == old(self).buckets().len(),
            forall|i: int|
                0 <= i < final(self).buckets().len() && !old(self).path_of(
                    if old(self).positions().contains_key(id) {
                        old(self).positions()[id]
                    } else {
                        final(self).positions()[id]
                    },
                ).contains(i as usize) ==> #[trigger] final(self).buckets()[i] == old(self).buckets()[i],
    {
        let ghost o0 = *self;
        let ghost m0 = self@;
        let ghost p0 = self.positions();
        let ghost s0 = self.stash_blocks();
        let ghost t0 = self.buckets();
        let ghost lc = self.leaf_count();
        let ghost dv = data@;
        let new_leaf = self.random_leaf();
        let old_leaf = match self.position_map.get(&id) {
            Some(l) => *l,
            None => new_leaf,
        };
        self.position_map.insert(id, new_leaf);
        let ghost path = self.path_of(old_leaf);
        self.read_path(old_leaf);
        let ghost s1 = self.stash_blocks();
        let ghost t1 = self.buckets();
        proof {
            lemma_path_to((lc + old_leaf) as usize);
            assert(forall|a: int| 0 <= a < path.len() ==> #[trigger] path[a] < t0.len());
            lemma_read_path_keeps_blocks(s0, t0, s1, t1, path);
        }
        let mut kept: Vec<Block> = Vec::new();
        let mut j: usize = 0;
        while j < self.stash.len()
            invariant
                j <= self.stash@.len(),
                s1 == self.stash_blocks(),
                views(kept@) == s1.take(j as int).filter(not_id_pred(id)),
                leaves_below(s1, self.leaf_count()),
            decreases self.stash@.len() - j,
        {
            proof {
                assert(s1.take(j as int + 1) =~= s1.take(j as int).push(s1[j as int]));
                s1.take(j as int).lemma_filter_push(s1[j as int], not_id_pred(id));
            }
            if self.stash[j].id != id {
                let b = self.stash[j].duplicate();
                let ghost kv = views(kept@);
                kept.push(b);
                proof {
                    assert(views(kept@) =~= kv.push(s1[j as int]));
                }
            }
            j = j + 1;
        }
        proof {
            assert(s1.take(s1.len() as int) =~= s1);
        }
        let ghost kv = views(kept@);
        self.stash = kept;
        self.stash.push(Block::new(id, data, new_leaf));
        let ghost x = (id, dv, new_leaf);
        let ghost s2 = self.stash_blocks();
        proof {
            assert(s2 =~= kv.push(x));
            assert forall|i: int| 0 <= i < kv.len() implies (#[trigger] kv[i]).2 < self.num_leaves by {
                lemma_filter_leaves(s1, not_id_pred(id), self.num_leaves as nat);
            }
        }
        self.write_path(old_leaf);
        self.model = Ghost(
            if id != EMPTY_BLOCK_ID {
                m0.insert(id, dv)
            } else {
                m0
            },
        );
        proof {
            let m1 = self@;
            let p1 = self.positions();
            assert(p1 == p0.insert(id, new_leaf));
            assert(old_leaf < lc);
            assert(path == path_to((lc + old_leaf) as usize));
            assert(p0.contains_key(id) ==> old_leaf == p0[id]);
            assert(consistent(m0, p0, lc, s0, t0));
            assert forall|k: u64|
                #![trigger m1.contains_key(k)]
                #![trigger p1.contains_key(k)]
                m1.contains_key(k) <==> (p1.contains_key(k) && k != EMPTY_BLOCK_ID) by {
                assert(m0.contains_key(k) <==> (p0.contains_key(k) && k != EMPTY_BLOCK_ID));
            }
            // what the read path brought into the stash fits the old data
            assert forall|b: BlockView| #[trigger] s1.contains(b) implies is_real(b) && block_fits(m0, b) by {
                lemma_concat_contains(s0, path_blocks(t0, path), b);
                if s0.contains(b) {
                    let jj = choose|jj: int| 0 <= jj < s0.len() && s0[jj] == b;
                    assert(is_real(s0[jj]));
                } else {
                    lemma_path_blocks_member(t0, path, b);
                    let (mm, q) = choose|mm: int, q: int|
                        0 <= mm < path.len() && path[mm] < t0.len() && 0 <= q < t0[path[mm] as int].len()
                            && #[trigger] t0[path[mm] as int][q] == b;
                    assert(is_real(t0[path[mm] as int][q]));
                }
            }
            assert forall|jj: int| 0 <= jj < s2.len() && is_real(#[trigger] s2[jj]) implies block_fits(
                m1,
                s2[jj],
            ) by {
                if jj < kv.len() {
                    let b = kv[jj];
                    assert(s2[jj] == b);
                    assert(kv.contains(b));
                    lemma_filter_member(s1, not_id_pred(id), b);
                    assert(b.0 != id);
                } else {
                    assert(s2[jj] == x);
                }
            }
            assert forall|i: int, q: int|
                0 <= i < t1.len() && 0 <= q < t1[i].len() && is_real(#[trigger] t1[i][q]) implies {
                    &&& block_fits(m1, t1[i][q])
                    &&& path_to((lc + p1[t1[i][q].0]) as usize).contains(i as usize)
                } by {
                if path.contains(i as usize) {
                    lemma_no_real_slot(t1[i], q);
                } else {
                    assert(t1[i] == t0[i]);
                    assert(is_real(t0[i][q]));
                    let b = t0[i][q];
                    assert(b.0 != id) by {
                        if b.0 == id {
                            assert(m0.contains_key(id));
                            assert(p0.contains_key(id));
                        }
                    }
                }
            }
            assert forall|k: u64| #[trigger] m1.contains_key(k) implies holds_copy(s2, t1, k) by {
                if k == id {
                    assert(s2[kv.len() as int] == x);
                    assert(s2.contains(x));
                    lemma_copy_in_stash(s2, t1, x);
                } else {
                    assert(m0.contains_key(k));
                    assert(holds_copy(s0, t0, k));
                    let b: BlockView = if exists|jj: int| 0 <= jj < s0.len() && (#[trigger] s0[jj]).0 == k {
                        let jj = choose|jj: int| 0 <= jj < s0.len() && (#[trigger] s0[jj]).0 == k;
                        assert(s0.contains(s0[jj]));
                        lemma_concat_contains(s0, path_blocks(t0, path), s0[jj]);
                        s0[jj]
                    } else {
                        let (i, q) = choose|i: int, q: int|
                            0 <= i < t0.len() && 0 <= q < t0[i].len() && (#[trigger] t0[i][q]).0 == k;
                        if path.contains(i as usize) {
                            assert(is_real(t0[i][q]));
                            let mm = choose|mm: int| 0 <= mm < path.len() && path[mm] == i as usize;
                            assert(path[mm] as int == i);
                            lemma_path_blocks_has(t0, path, mm, q);
                            lemma_concat_contains(s0, path_blocks(t0, path), t0[i][q]);
                        } else {
                            assert(t1[i] == t0[i]);
                            assert(t1[i][q].0 == k);
                        }
                        t0[i][q]
                    };
                    if s1.contains(b) {
                        let jj = choose|jj: int| 0 <= jj < s1.len() && s1[jj] == b;
                        s1.lemma_filter_contains(not_id_pred(id), jj);
                        let kk = choose|kk: int| 0 <= kk < kv.len() && kv[kk] == b;
                        assert(s2[kk] == b);
                        lemma_copy_in_stash(s2, t1, b);
                    }
                }
            }
            assert(tree_shape_ok(t1, lc));
            assert(tree_shape_ok(self.buckets(), lc));
            assert forall|k: u64| #[trigger] m1.contains_key(k) implies copies_in(s2, t1, k) == 1 by {
                lemma_copies_split(s2, t1, k);
                lemma_copies_split(s1, t1, k);
                kv.lemma_filter_push(x, id_pred(k));
                if k == id {
                    assert forall|b: BlockView| kv.contains(b) implies !id_pred(id)(b) by {
                        lemma_filter_member(s1, not_id_pred(id), b);
                    }
                    lemma_filter_none(kv, id_pred(id));
                    assert forall|b: BlockView| tree_blocks(t1).contains(b) implies !id_pred(id)(b) by {
                        lemma_tree_blocks_member(t1, b);
                        let (i, q) = choose|i: int, q: int|
                            0 <= i < t1.len() && 0 <= q < t1[i].len() && #[trigger] t1[i][q] == b;
                        if path.contains(i as usize) {
                            lemma_no_real_slot(t1[i], q);
                        } else {
                            assert(t1[i] == t0[i]);
                            assert(is_real(t0[i][q]));
                            if b.0 == id {
                                assert(m0.contains_key(id));
                                assert(p0.contains_key(id));
                            }
                        }
                    }
                    lemma_filter_none(tree_blocks(t1), id_pred(id));
                } else {
                    lemma_filter_filter(s1, not_id_pred(id), id_pred(k), id_pred(k));
                    assert(m0.contains_key(k));
                    lemma_filter_same_len(all_blocks(s1, t1), all_blocks(s0, t0), id_pred(k));
                }
            }
            lemma_after_write_back(m1, p1, lc, path, s2, t1, self.stash_blocks(), self.buckets());
            assert forall|k: u64| k != id implies #[trigger] self.read_result(k) == o0.read_result(k) by {
                lemma_read_result_is_contents(*self, k);
                lemma_read_result_is_contents(o0, k);
            }
            lemma_read_result_is_contents(*self, id);
        }
    }

    /// The data stored under `id`, if any; the block moves to a fresh random leaf and the path
    /// it was read from is written back.
    pub fn read(&mut self, id: u64) -> (r: Option<Vec<u8>>)
        requires
            old(self).wf(),
        ensures
            final(self).wf(),
            final(self).leaf_count() == old(self).leaf_count(),
            final(self).tree_height() == old(self).tree_height(),
            match r {
                Some(d) => old(self)@.contains_key(id) && d@ == old(self)@[id],
                None => !old(self)@.contains_key(id),
            },
            match r {
                Some(d) => old(self).read_result(id) == Some(d@),
                None => old(self).read_result(id) is None,
            },
            final(self)@ == old(self)@,
            forall|k: u64| #[trigger] final(self).read_result(k) == old(self).read_result(k),
            !old(self).positions().contains_key(id) ==> *final(self) == *old(self),
            old(self).positions().contains_key(id) ==> {
                &&& final(self).positions() == old(self).positions().insert(id, final(self).positions()[id])
                &&& final(self).positions()[id] < final(self).leaf_count()
                &&& final(self).buckets().len() == old(self).buckets().len()
                &&& forall|i: int|
                    0 <= i < final(self).buckets().len() && !old(self).path_of(
                        old(self).positions()[id],
                    ).contains(i as usize) ==> #[trigger] final(self).buckets()[i] == old(self).buckets()[i]
            },
    {
        let ghost o0 = *self;
        let ghost m0 = self@;
        let ghost p0 = self.positions();
        let ghost s0 = self.stash_blocks();
        let ghost t0 = self.buckets();
        let ghost lc = self.leaf_count();
        let current_leaf = match self.position_map.get(&id) {
            Some(l) => *l,
            None => {
                proof {
                    lemma_read_result_is_contents(o0, id);
                    assert(!m0.contains_key(id)) by {
                        assert(consistent(m0, p0, lc, s0, t0));
                        assert(!p0.contains_key(id));
                    }
                }
                return None;
            },
        };
        let ghost path = self.path_of(current_leaf);
        let new_leaf = self.random_leaf();
        self.position_map.insert(id, new_leaf);
        self.read_path(current_leaf);
        let ghost s1 = self.stash_blocks();
        let ghost t1 = self.buckets();
        proof {
            lemma_path_to((lc + current_leaf) as usize);
            assert(forall|a: int| 0 <= a < path.len() ==> #[trigger] path[a] < t0.len());
            lemma_read_path_keeps_blocks(s0, t0, s1, t1, path);
        }
        let mut found_data: Option<Vec<u8>> = None;
        let found = self.find_in_stash(id);
        proof {
            assert(s1 == s0 + path_blocks(t0, path));
            assert(consistent(m0, p0, lc, s0, t0));
            assert(path == path_to((lc + p0[id]) as usize));
            // what the read path brought into the stash fits the stored data
            assert forall|b: BlockView| #[trigger] s1.contains(b) implies is_real(b) && block_fits(m0, b) by {
                lemma_concat_contains(s0, path_blocks(t0, path), b);
                if s0.contains(b) {
                    let jj = choose|jj: int| 0 <= jj < s0.len() && s0[jj] == b;
                    assert(is_real(s0[jj]));
                } else {
                    lemma_path_blocks_member(t0, path, b);
                    let (mm, q) = choose|mm: int, q: int|
                        0 <= mm < path.len() && path[mm] < t0.len() && 0 <= q < t0[path[mm] as int].len()
                            && #[trigger] t0[path[mm] as int][q] == b;
                    assert(is_real(t0[path[mm] as int][q]));
                }
            }
            // every stored id has a copy in the new stash or off the path
            assert forall|k: u64| #[trigger] m0.contains_key(k) implies {
                ||| exists|jj: int| 0 <= jj < s1.len() && (#[trigger] s1[jj]).0 == k
                ||| exists|i: int, q: int|
                    0 <= i < t1.len() && !path.contains(i as usize) && 0 <= q < t1[i].len() && (
                    #[trigger] t1[i][q]).0 == k
            } by {
                assert(holds_copy(s0, t0, k));
                if exists|jj: int| 0 <= jj < s0.len() && (#[trigger] s0[jj]).0 == k {
                    let jj = choose|jj: int| 0 <= jj < s0.len() && (#[trigger] s0[jj]).0 == k;
                    assert(s1[jj] == s0[jj]);
                } else {
                    let (i, q) = choose|i: int, q: int|
                        0 <= i < t0.len() && 0 <= q < t0[i].len() && (#[trigger] t0[i][q]).0 == k;
                    assert(is_real(t0[i][q]));
                    if path.contains(i as usize) {
                        let mm = choose|mm: int| 0 <= mm < path.len() && path[mm] == i as usize;
                        assert(path[mm] as int == i);
                        lemma_path_blocks_has(t0, path, mm, q);
                        lemma_concat_contains(s0, path_blocks(t0, path), t0[i][q]);
                        let jj = choose|jj: int| 0 <= jj < s1.len() && s1[jj] == t0[i][q];
                        assert(s1[jj].0 == k);
                    } else {
                        assert(t1[i] == t0[i]);
                        assert(t1[i][q].0 == k);
                    }
                }
            }
            lemma_read_result_is_contents(o0, id);
        }
        match found {
            Some(j) => {
                let data = self.stash[j].data.clone();
                proof {
                    assert(data@ =~= self.stash@[j as int].data@);
                    lemma_first_match(self.stash_blocks(), id_pred(id), j as int);
                    assert(s1.contains(s1[j as int]));
                }
                found_data = Some(data);
                let mut b = self.stash[j].duplicate();
                b.leaf = new_leaf;
                let ghost sb = self.stash_blocks();
                self.stash.set(j, b);
                proof {
                    assert(self.stash_blocks() =~= sb.update(j as int, (sb[j as int].0, sb[j as int].1, new_leaf)));
                }
            },
            None => {
                proof {
                    lemma_no_match(self.stash_blocks(), id_pred(id));
                    if m0.contains_key(id) {
                        let jj = choose|jj: int| 0 <= jj < s1.len() && (#[trigger] s1[jj]).0 == id;
                        assert(s1[jj].0 == id);
                    }
                }
            },
        }
        let ghost s2 = self.stash_blocks();
        proof {
            let p1 = self.positions();
            assert(p1 == p0.insert(id, new_leaf));
            assert forall|k: u64|
                #![trigger m0.contains_key(k)]
                #![trigger p1.contains_key(k)]
                m0.contains_key(k) <==> (p1.contains_key(k) && k != EMPTY_BLOCK_ID) by {
                assert(m0.contains_key(k) <==> (p0.contains_key(k) && k != EMPTY_BLOCK_ID));
            }
            assert(s2.len() == s1.len());
            assert forall|jj: int| 0 <= jj < s2.len() implies #[trigger] s2[jj].0 == s1[jj].0 && s2[jj].1
                == s1[jj].1 by {}
            assert forall|jj: int| 0 <= jj < s2.len() && is_real(#[trigger] s2[jj]) implies block_fits(
                m0,
                s2[jj],
            ) by {
                assert(s1.contains(s1[jj]));
            }
            assert forall|i: int, q: int|
                0 <= i < t1.len() && 0 <= q < t1[i].len() && is_real(#[trigger] t1[i][q]) implies {
                    &&& block_fits(m0, t1[i][q])
                    &&& path_to((lc + p1[t1[i][q].0]) as usize).contains(i as usize)
                } by {
                if path.contains(i as usize) {
                    lemma_no_real_slot(t1[i], q);
                } else {
                    assert(t1[i] == t0[i]);
                    assert(is_real(t0[i][q]));
                    assert(t0[i][q].0 != id);
                }
            }
            assert forall|k: u64| #[trigger] m0.contains_key(k) implies holds_copy(s2, t1, k) by {
                if exists|jj: int| 0 <= jj < s1.len() && (#[trigger] s1[jj]).0 == k {
                    let jj = choose|jj: int| 0 <= jj < s1.len() && (#[trigger] s1[jj]).0 == k;
                    assert(s2[jj].0 == k);
                } else {
                    let (i, q) = choose|i: int, q: int|
                        0 <= i < t1.len() && !path.contains(i as usize) && 0 <= q < t1[i].len() && (
                        #[trigger] t1[i][q]).0 == k;
                    assert(t1[i][q].0 == k);
                }
            }
        }
        self.write_path(current_leaf);
        proof {
            let p1 = self.positions();
            assert(tree_shape_ok(t1, lc));
            assert(tree_shape_ok(self.buckets(), lc));
            assert forall|k: u64| #[trigger] m0.contains_key(k) implies copies_in(s2, t1, k) == 1 by {
                lemma_copies_split(s2, t1, k);
                lemma_copies_split(s1, t1, k);
                lemma_same_ids_filter_len(s2, s1, k);
                lemma_filter_same_len(all_blocks(s1, t1), all_blocks(s0, t0), id_pred(k));
            }
            lemma_after_write_back(m0, p1, lc, path, s2, t1, self.stash_blocks(), self.buckets());
            assert forall|k: u64| #[trigger] self.read_result(k) == o0.read_result(k) by {
                lemma_read_result_is_contents(*self, k);
                lemma_read_result_is_contents(o0, k);
            }
        }
        found_data
    }

    /// The first stash position holding `id`.
    fn find_in_stash(&self, id: u64) -> (r: Option<usize>)
        ensures
            match r {
                Some(j) => j < self.stash_blocks().len() && self.stash_blocks()[j as int].0 == id
                    && forall|i: int| 0 <= i < j ==> (#[trigger] self.stash_blocks()[i]).0 != id,
                None => forall|i: int|
                    0 <= i < self.stash_blocks().len() ==> (#[trigger] self.stash_blocks()[i]).0 != id,
            },
    {
        let mut j: usize = 0;
        while j < self.stash.len()
            invariant
                j <= self.stash@.len(),
                forall|i: int| 0 <= i < j ==> (#[trigger] self.stash_blocks()[i]).0 != id,
            decreases self.stash@.len() - j,
        {
            if self.stash[j].id == id {
                return Some(j);
            }
            j = j + 1;
        }
        None
    }

    /// Whether `id` has ever been written.
    pub fn contains(&self, id: u64) -> (r: bool)
        ensures
            r == self.positions().contains_key(id),
    {
        self.position_map.contains_key(&id)
    }

    /// The number of real blocks in the stash.
    pub fn stash_size(&self) -> (r: usize)
        ensures
            r == real_of(self.stash_blocks()).len(),
    {
        let mut c: usize = 0;
        let mut j: usize = 0;
        while j < self.stash.len()
            invariant
                j <= self.stash@.len(),
                c == real_of(self.stash_blocks().take(j as int)).len(),
                c <= j,
            decreases self.stash@.len() - j,
        {
            proof {
                lemma_take_push_real(self.stash_blocks(), j as int);
            }
            if !self.stash[j].is_empty() {
                c = c + 1;
            }
            j = j + 1;
        }
        proof {
            assert(self.stash_blocks().take(self.stash@.len() as int) =~= self.stash_blocks());
        }
        c
    }

    /// The number of real blocks in the tree and the stash together.
    pub fn total_blocks(&self) -> (r: usize)
        requires
            self.real_total() <= usize::MAX,
        ensures
            r == self.real_total(),
    {
        let mut tree_count: usize = 0;
        let mut i: usize = 0;
        while i < self.tree.len()
            invariant
                i <= self.tree@.len(),
                tree_count == tree_real_count(self.buckets().take(i as int)),
                self.real_total() <= usize::MAX,
            decreases self.tree@.len() - i,
        {
            proof {
                let t = self.buckets();
                assert(t.take(i as int + 1).drop_last() =~= t.take(i as int));
                assert(t.take(i as int + 1).last() == t[i as int]);
                lemma_tree_real_count_prefix(t, i as int + 1);
            }
            let c = self.tree[i].count();
            tree_count = tree_count + c;
            i = i + 1;
        }
        proof {
            assert(self.buckets().take(self.tree@.len() as int) =~= self.buckets());
        }
        tree_count + self.stash_size()
    }
}

pub open spec fn not_id_pred(id: u64) -> spec_fn(BlockView) -> bool {
    |b: BlockView| b.0 != id
}

/// Whether `x` occurs in `v`.
fn vec_contains(v: &Vec<usize>, x: usize) -> (r: bool)
    ensures
        r == v@.contains(x),
{
    let mut i: usize = 0;
    while i < v.len()
        invariant
            i <= v@.len(),
            forall|k: int| 0 <= k < i ==> v@[k] != x,
        decreases v@.len() - i,
    {
        if v[i] == x {
            return true;
        }
        i = i + 1;
    }
    false
}

proof fn lemma_all_real(s: Seq<BlockView>)
    requires
        forall|a: int| 0 <= a < s.len() ==> is_real(#[trigger] s[a]),
    ensures
        real_of(s) == s,
    decreases s.len(),
{
    if s.len() > 0 {
        lemma_all_real(s.drop_last());
        assert(s =~= s.drop_last().push(s.last()));
        s.drop_last().lemma_filter_push(s.last(), real_pred());
    } else {
        assert(s.filter(real_pred()) =~= s) by {
            reveal(Seq::filter);
        }
    }
}

/// A bucket with fewer real blocks than slots has an empty slot.
proof fn lemma_free_slot_exists(b: Seq<BlockView>)
    requires
        real_of(b).len() < b.len(),
    ensures
        exists|k: int| 0 <= k < b.len() && !is_real(b[k]),
{
    if forall|a: int| 0 <= a < b.len() ==> is_real(#[trigger] b[a]) {
        lemma_all_real(b);
    }
}

proof fn lemma_real_push(s: Seq<BlockView>, x: BlockView)
    ensures
        real_of(s.push(x)) == if is_real(x) {
            real_of(s).push(x)
        } else {
            real_of(s)
        },
        real_of(s.push(x)).to_multiset() == if is_real(x) {
            real_of(s).to_multiset().insert(x)
        } else {
            real_of(s).to_multiset()
        },
{
    s.lemma_filter_push(x, real_pred());
    vstd::seq_lib::to_multiset_build(real_of(s), x);
}

proof fn lemma_real_skip(s: Seq<BlockView>, j: int)
    requires
        0 <= j < s.len(),
    ensures
        real_of(s.skip(j)).to_multiset() == if is_real(s[j]) {
            real_of(s.skip(j + 1)).to_multiset().insert(s[j])
        } else {
            real_of(s.skip(j + 1)).to_multiset()
        },
{
    assert(s.skip(j) =~= seq![s[j]] + s.skip(j + 1));
    lemma_filter_singleton(s[j], real_pred());
    vstd::seq_lib::lemma_multiset_commutative(real_of(seq![s[j]]), real_of(s.skip(j + 1)));
    lemma_empty_to_multiset::<BlockView>();
    vstd::seq_lib::to_multiset_build(Seq::<BlockView>::empty(), s[j]);
    assert(seq![s[j]] =~= Seq::<BlockView>::empty().push(s[j]));
    assert(Seq::<BlockView>::empty() + real_of(s.skip(j + 1)) =~= real_of(s.skip(j + 1)));
}

/// Filtering keeps the leaf bound.
proof fn lemma_filter_leaves(s: Seq<BlockView>, p: spec_fn(BlockView) -> bool, n: nat)
    requires
        leaves_below(s, n),
    ensures
        leaves_below(s.filter(p), n),
    decreases s.len(),
{
    if s.len() > 0 {
        lemma_filter_leaves(s.drop_last(), p, n);
        assert(s =~= s.drop_last().push(s.last()));
        s.drop_last().lemma_filter_push(s.last(), p);
    } else {
        assert(s.filter(p) =~= s) by {
            reveal(Seq::filter);
        }
    }
}








/// The first element of a filter is the first element that passes.
proof fn lemma_first_match<A>(s: Seq<A>, p: spec_fn(A) -> bool, j: int)
    requires
        0 <= j < s.len(),
        p(s[j]),
        forall|i: int| 0 <= i < j ==> !p(#[trigger] s[i]),
    ensures
        s.filter(p).len() > 0,
        s.filter(p)[0] == s[j],
{
    assert(s =~= s.take(j) + (seq![s[j]] + s.skip(j + 1)));
    assert forall|i: int| 0 <= i < s.take(j).len() implies !p(#[trigger] s.take(j)[i]) by {
        assert(s.take(j)[i] == s[i]);
    }
    s.take(j).lemma_all_neg_filter_empty(p);
    assert(s.take(j).all(|x: A| !p(x)));
    s.skip(j + 1).lemma_filter_prepend(s[j], p);
}

/// When nothing passes, the filter is empty.
proof fn lemma_no_match<A>(s: Seq<A>, p: spec_fn(A) -> bool)
    requires
        forall|i: int| 0 <= i < s.len() ==> !p(#[trigger] s[i]),
    ensures
        s.filter(p).len() == 0,
{
    assert(s.all(|x: A| !p(x)));
    s.lemma_all_neg_filter_empty(p);
}

proof fn lemma_tree_real_count_prefix(t: Seq<Seq<BlockView>>, i: int)
    requires
        0 <= i <= t.len(),
    ensures
        tree_real_count(t.take(i)) <= tree_real_count(t),
    decreases t.len(),
{
    if i < t.len() {
        assert(t.drop_last().take(i) =~= t.take(i));
        lemma_tree_real_count_prefix(t.drop_last(), i);
    } else {
        assert(t.take(i) =~= t);
    }
}

/// A sequence without real blocks has no real blocks to filter out.
proof fn lemma_no_real_blocks(s: Seq<BlockView>)
    requires
        forall|a: int| 0 <= a < s.len() ==> !is_real(#[trigger] s[a]),
    ensures
        real_of(s).len() == 0,
    decreases s.len(),
{
    if s.len() > 0 {
        lemma_no_real_blocks(s.drop_last());
        assert(s =~= s.drop_last().push(s.last()));
        s.drop_last().lemma_filter_push(s.last(), real_pred());
    }
}

/// `ceil(log2(c))`, with 0 for `c <= 1`.
pub open spec fn ceil_log2(c: nat) -> nat
    decreases c,
{
    if c <= 1 {
        0
    } else {
        1 + ceil_log2(((c + 1) / 2) as nat)
    }
}

pub(crate) proof fn lemma_ceil_log2_bound(c: nat)
    requires
        c <= usize::MAX / 8 + 1,
    ensures
        ceil_log2(c) <= c,
        2 * vstd::arithmetic::power2::pow2(ceil_log2(c) + 1) <= usize::MAX,
{
    lemma_ceil_log2_pow(c);
    lemma_ceil_log2_small(c);
    vstd::arithmetic::power2::lemma_pow2_unfold(ceil_log2(c) + 1);
}

proof fn lemma_ceil_log2_small(c: nat)
    ensures
        ceil_log2(c) <= c,
    decreases c,
{
    if c >= 2 {
        lemma_ceil_log2_small(((c + 1) / 2) as nat);
    }
}

proof fn lemma_ceil_log2_pow(c: nat)
    ensures
        c <= 1 ==> vstd::arithmetic::power2::pow2(ceil_log2(c)) == 1,
        c >= 2 ==> vstd::arithmetic::power2::pow2(ceil_log2(c)) <= 2 * c - 2,
    decreases c,
{
    vstd::arithmetic::power2::lemma2_to64();
    if c >= 2 {
        let d = ((c + 1) / 2) as nat;
        lemma_ceil_log2_pow(d);
        vstd::arithmetic::power2::lemma_pow2_unfold(ceil_log2(c));
    }
}

} // verus!

verus! {

/// An element of a concatenation is an element of one of its parts, and back.
proof fn lemma_concat_contains<A>(a: Seq<A>, b: Seq<A>, x: A)
    ensures
        (a + b).contains(x) <==> (a.contains(x) || b.contains(x)),
{
    if (a + b).contains(x) {
        let i = choose|i: int| 0 <= i < (a + b).len() && (a + b)[i] == x;
        if i < a.len() {
            assert(a[i] == x);
        } else {
            assert(b[i - a.len()] == x);
        }
    }
    if a.contains(x) {
        let i = choose|i: int| 0 <= i < a.len() && a[i] == x;
        assert((a + b)[i] == x);
    }
    if b.contains(x) {
        let i = choose|i: int| 0 <= i < b.len() && b[i] == x;
        assert((a + b)[i + a.len()] == x);
    }
}

/// An element of a filter passes the predicate and is an element of the sequence.
proof fn lemma_filter_member<A>(s: Seq<A>, p: spec_fn(A) -> bool, x: A)
    requires
        s.filter(p).contains(x),
    ensures
        s.contains(x),
        p(x),
{
    s.filter_lemma(p);
    s.lemma_filter_contains_rev(p, x);
    let i = choose|i: int| 0 <= i < s.filter(p).len() && s.filter(p)[i] == x;
    assert(p(s.filter(p)[i]));
}

/// A block of the path's blocks is a real block of a bucket on the path.
proof fn lemma_path_blocks_member(t: Seq<Seq<BlockView>>, path: Seq<usize>, b: BlockView)
    requires
        path_blocks(t, path).contains(b),
    ensures
        is_real(b),
        exists|m: int, q: int|
            0 <= m < path.len() && path[m] < t.len() && 0 <= q < t[path[m] as int].len()
                && #[trigger] t[path[m] as int][q] == b,
    decreases path.len(),
{
    let pre = path.drop_last();
    let tail = if path.last() < t.len() {
        real_of(t[path.last() as int])
    } else {
        seq![]
    };
    assert(path_blocks(t, path) == path_blocks(t, pre) + tail);
    lemma_concat_contains(path_blocks(t, pre), tail, b);
    if path_blocks(t, pre).contains(b) {
        lemma_path_blocks_member(t, pre, b);
        let (m, q) = choose|m: int, q: int|
            0 <= m < pre.len() && pre[m] < t.len() && 0 <= q < t[pre[m] as int].len()
                && #[trigger] t[pre[m] as int][q] == b;
        assert(path[m] == pre[m]);
        assert(t[path[m] as int][q] == b);
    } else {
        assert(path.last() < t.len());
        let bk = t[path.last() as int];
        lemma_filter_member(bk, real_pred(), b);
        let q = choose|q: int| 0 <= q < bk.len() && bk[q] == b;
        let m = path.len() - 1;
        assert(t[path[m] as int][q] == b);
    }
}

/// A real block of a bucket on the path is among the path's blocks.
proof fn lemma_path_blocks_has(t: Seq<Seq<BlockView>>, path: Seq<usize>, m: int, q: int)
    requires
        0 <= m < path.len(),
        path[m] < t.len(),
        0 <= q < t[path[m] as int].len(),
        is_real(t[path[m] as int][q]),
    ensures
        path_blocks(t, path).contains(t[path[m] as int][q]),
    decreases path.len(),
{
    let b = t[path[m] as int][q];
    let pre = path.drop_last();
    let tail = if path.last() < t.len() {
        real_of(t[path.last() as int])
    } else {
        seq![]
    };
    assert(path_blocks(t, path) == path_blocks(t, pre) + tail);
    if m == path.len() - 1 {
        t[path[m] as int].lemma_filter_contains(real_pred(), q);
    } else {
        assert(pre[m] == path[m]);
        lemma_path_blocks_has(t, pre, m, q);
    }
    lemma_concat_contains(path_blocks(t, pre), tail, b);
}

/// What stays behind after eviction are real blocks of the input.
proof fn lemma_evict_rest_members(
    positions: Map<u64, usize>,
    leaf_count: nat,
    idx: usize,
    local: Seq<BlockView>,
    free: nat,
)
    ensures
        forall|j: int|
            0 <= j < evict_rest(positions, leaf_count, idx, local, free).len() ==> {
                &&& is_real(#[trigger] evict_rest(positions, leaf_count, idx, local, free)[j])
                &&& local.contains(evict_rest(positions, leaf_count, idx, local, free)[j])
            },
    decreases local.len(),
{
    if local.len() > 0 {
        let b = local[0];
        let rest = local.drop_first();
        lemma_evict_rest_members(positions, leaf_count, idx, rest, free);
        if free > 0 {
            lemma_evict_rest_members(positions, leaf_count, idx, rest, (free - 1) as nat);
        }
        let r = evict_rest(positions, leaf_count, idx, local, free);
        assert forall|j: int| 0 <= j < r.len() implies is_real(#[trigger] r[j]) && local.contains(r[j]) by {
            if !is_real(b) {
                let r2 = evict_rest(positions, leaf_count, idx, rest, free);
                assert(r == r2);
                let x = r[j];
                assert(is_real(r2[j]) && rest.contains(r2[j]));
                let k = choose|k: int| 0 <= k < rest.len() && rest[k] == x;
                assert(local[k + 1] == x);
            } else if free > 0 && path_to((leaf_count + home_leaf(positions, b)) as usize).contains(idx) {
                let r2 = evict_rest(positions, leaf_count, idx, rest, (free - 1) as nat);
                assert(r == r2);
                let x = r[j];
                assert(is_real(r2[j]) && rest.contains(r2[j]));
                let k = choose|k: int| 0 <= k < rest.len() && rest[k] == x;
                assert(local[k + 1] == x);
            } else {
                let tail = evict_rest(positions, leaf_count, idx, rest, free);
                assert(r == seq![b] + tail);
                if j == 0 {
                    assert(r[j] == b);
                    assert(local[0] == b);
                } else {
                    let x = r[j];
                    assert(x == tail[j - 1]);
                    assert(is_real(tail[j - 1]) && rest.contains(tail[j - 1]));
                    let k = choose|k: int| 0 <= k < rest.len() && rest[k] == x;
                    assert(local[k + 1] == x);
                }
            }
        }
    }
}

} // verus!

verus! {

/// What a read of `k` finds is the data of the last write of `k`, and nothing for an id never
/// written (or the empty-slot id).
pub proof fn lemma_read_result_is_contents(o: PathOram, k: u64)
    requires
        o.wf(),
    ensures
        o.read_result(k) == if o@.contains_key(k) {
            Some(o@[k])
        } else {
            None::<Seq<u8>>
        },
{
    let m = o@;
    let p = o.positions();
    let s = o.stash_blocks();
    let t = o.buckets();
    assert(m.contains_key(k) <==> (p.contains_key(k) && k != EMPTY_BLOCK_ID));
    if p.contains_key(k) {
        let path = o.path_of(p[k]);
        let pb = path_blocks(t, path);
        let all = s + pb;
        let v = all.filter(id_pred(k));
        assert(visible(s, t, path, k) == v);
        // every visible block is a real block carrying the stored data
        assert forall|x: BlockView| #[trigger] v.contains(x) implies is_real(x) && block_fits(m, x)
            && x.0 == k by {
            lemma_filter_member(all, id_pred(k), x);
            lemma_concat_contains(s, pb, x);
            if s.contains(x) {
                let j = choose|j: int| 0 <= j < s.len() && s[j] == x;
                assert(is_real(s[j]) && block_fits(m, s[j]));
            } else {
                lemma_path_blocks_member(t, path, x);
                let (mm, q) = choose|mm: int, q: int|
                    0 <= mm < path.len() && path[mm] < t.len() && 0 <= q < t[path[mm] as int].len()
                        && #[trigger] t[path[mm] as int][q] == x;
                assert(is_real(t[path[mm] as int][q]));
            }
        }
        if m.contains_key(k) {
            assert(holds_copy(s, t, k));
            let w: BlockView = if exists|j: int| 0 <= j < s.len() && (#[trigger] s[j]).0 == k {
                let j = choose|j: int| 0 <= j < s.len() && (#[trigger] s[j]).0 == k;
                assert(all[j] == s[j]);
                all.lemma_filter_contains(id_pred(k), j);
                s[j]
            } else {
                let (i, q) = choose|i: int, q: int|
                    0 <= i < t.len() && 0 <= q < t[i].len() && (#[trigger] t[i][q]).0 == k;
                assert(is_real(t[i][q]));
                assert(path.contains(i as usize));
                let mm = choose|mm: int| 0 <= mm < path.len() && path[mm] == i as usize;
                lemma_path_blocks_has(t, path, mm, q);
                lemma_concat_contains(s, pb, t[i][q]);
                let jj = choose|jj: int| 0 <= jj < all.len() && all[jj] == t[i][q];
                all.lemma_filter_contains(id_pred(k), jj);
                t[i][q]
            };
            assert(v.contains(w));
            assert(v.len() > 0);
            assert(v.contains(v[0]));
        } else {
            if v.len() > 0 {
                assert(v.contains(v[0]));
            }
        }
    }
}

} // verus!

verus! {

/// A bucket without real blocks has no real slot.
proof fn lemma_no_real_slot(b: Seq<BlockView>, q: int)
    requires
        real_of(b).len() == 0,
        0 <= q < b.len(),
    ensures
        !is_real(b[q]),
{
    if is_real(b[q]) {
        b.lemma_filter_contains(real_pred(), q);
    }
}

/// An element of `s` with id `k` is a copy of `k`.
proof fn lemma_copy_in_stash(s: Seq<BlockView>, t: Seq<Seq<BlockView>>, x: BlockView)
    requires
        s.contains(x),
    ensures
        holds_copy(s, t, x.0),
{
    let j = choose|j: int| 0 <= j < s.len() && s[j] == x;
    assert(s[j].0 == x.0);
}

/// Writing a path back keeps the stored data consistent with the blocks: `s2`, `t1` are the
/// stash and buckets before, `s3`, `t3` after, as `write_path` leaves them.
proof fn lemma_after_write_back(
    m: Map<u64, Seq<u8>>,
    p: Map<u64, usize>,
    lc: nat,
    path: Seq<usize>,
    s2: Seq<BlockView>,
    t1: Seq<Seq<BlockView>>,
    s3: Seq<BlockView>,
    t3: Seq<Seq<BlockView>>,
)
    requires
        forall|k: u64|
            #![trigger m.contains_key(k)]
            #![trigger p.contains_key(k)]
            m.contains_key(k) <==> (p.contains_key(k) && k != EMPTY_BLOCK_ID),
        forall|j: int| 0 <= j < s2.len() && is_real(#[trigger] s2[j]) ==> block_fits(m, s2[j]),
        tree_fits(m, p, lc, t1),
        forall|k: u64| #[trigger] m.contains_key(k) ==> holds_copy(s2, t1, k),
        t1.len() <= usize::MAX,
        t3.len() == t1.len(),
        forall|i: int| 0 <= i < t1.len() ==> (#[trigger] t3[i]).len() == t1[i].len(),
        forall|i: int|
            0 <= i < t3.len() && !path.contains(i as usize) ==> #[trigger] t3[i] == t1[i],
        forall|j: int|
            0 <= j < s3.len() ==> is_real(#[trigger] s3[j]) && s2.contains(s3[j]),
        forall|i: int, q: int|
            0 <= i < t3.len() && 0 <= q < t3[i].len() && is_real(#[trigger] t3[i][q]) ==> t3[i][q]
                == t1[i][q] || (s2.contains(t3[i][q]) && path_to(
                (lc + home_leaf(p, t3[i][q])) as usize,
            ).contains(i as usize)),
        real_of(s3).to_multiset().add(path_blocks(t3, path).to_multiset()) == real_of(
            s2,
        ).to_multiset().add(path_blocks(t1, path).to_multiset()),
        forall|a: int, b: int| 0 <= a < b < path.len() ==> path[a] < path[b],
        forall|a: int| 0 <= a < path.len() ==> #[trigger] path[a] < t1.len(),
        forall|k: u64| #[trigger] m.contains_key(k) ==> copies_in(s2, t1, k) == 1,
    ensures
        consistent(m, p, lc, s3, t3),
{
    lemma_write_back_keeps_blocks(s2, t1, s3, t3, path);
    assert forall|k: u64| #[trigger] m.contains_key(k) implies copies_in(s3, t3, k) == 1 by {
        lemma_filter_same_len(all_blocks(s3, t3), all_blocks(s2, t1), id_pred(k));
    }
    assert forall|j: int| 0 <= j < s3.len() implies is_real(#[trigger] s3[j]) && block_fits(m, s3[j]) by {
        let i = choose|i: int| 0 <= i < s2.len() && s2[i] == s3[j];
        assert(is_real(s2[i]));
    }
    assert forall|i: int, q: int|
        0 <= i < t3.len() && 0 <= q < t3[i].len() && is_real(#[trigger] t3[i][q]) implies {
            &&& block_fits(m, t3[i][q])
            &&& path_to((lc + p[t3[i][q].0]) as usize).contains(i as usize)
        } by {
        let x = t3[i][q];
        if x == t1[i][q] {
            assert(is_real(t1[i][q]));
        } else {
            let jj = choose|jj: int| 0 <= jj < s2.len() && s2[jj] == x;
            assert(is_real(s2[jj]));
            assert(m.contains_key(x.0));
            assert(p.contains_key(x.0));
        }
    }
    // a real block of the old stash or of the old path is in the new stash or on the new path
    assert forall|x: BlockView|
        is_real(x) && (s2.contains(x) || path_blocks(t1, path).contains(x)) implies holds_copy(
        s3,
        t3,
        x.0,
    ) by {
        vstd::seq_lib::to_multiset_contains(real_of(s2), x);
        vstd::seq_lib::to_multiset_contains(path_blocks(t1, path), x);
        if s2.contains(x) {
            let j = choose|j: int| 0 <= j < s2.len() && s2[j] == x;
            s2.lemma_filter_contains(real_pred(), j);
        }
        vstd::seq_lib::to_multiset_contains(real_of(s3), x);
        vstd::seq_lib::to_multiset_contains(path_blocks(t3, path), x);
        assert(real_of(s3).to_multiset().add(path_blocks(t3, path).to_multiset()).count(x) > 0);
        if real_of(s3).contains(x) {
            lemma_filter_member(s3, real_pred(), x);
            lemma_copy_in_stash(s3, t3, x);
        } else {
            lemma_path_blocks_member(t3, path, x);
            let (mm, q) = choose|mm: int, q: int|
                0 <= mm < path.len() && path[mm] < t3.len() && 0 <= q < t3[path[mm] as int].len()
                    && #[trigger] t3[path[mm] as int][q] == x;
            assert(t3[path[mm] as int][q].0 == x.0);
        }
    }
    assert forall|k: u64| #[trigger] m.contains_key(k) implies holds_copy(s3, t3, k) by {
        assert(holds_copy(s2, t1, k));
        if exists|j: int| 0 <= j < s2.len() && (#[trigger] s2[j]).0 == k {
            let j = choose|j: int| 0 <= j < s2.len() && (#[trigger] s2[j]).0 == k;
            assert(s2.contains(s2[j]));
            assert(is_real(s2[j]));
            assert(holds_copy(s3, t3, s2[j].0));
        } else {
            let (i, q) = choose|i: int, q: int|
                0 <= i < t1.len() && 0 <= q < t1[i].len() && (#[trigger] t1[i][q]).0 == k;
            assert(is_real(t1[i][q]));
            if path.contains(i as usize) {
                let mm = choose|mm: int| 0 <= mm < path.len() && path[mm] == i as usize;
                assert(path[mm] as int == i);
                lemma_path_blocks_has(t1, path, mm, q);
                assert(holds_copy(s3, t3, t1[i][q].0));
            } else {
                assert(t3[i] == t1[i]);
                assert(t3[i][q].0 == k);
            }
        }
    }
}

} // verus!

verus! {

/// Filtering counts each value as the sequence does, or not at all.
proof fn lemma_filter_count<A>(s: Seq<A>, p: spec_fn(A) -> bool, v: A)
    ensures
        s.filter(p).to_multiset().count(v) == if p(v) {
            s.to_multiset().count(v)
        } else {
            0
        },
    decreases s.len(),
{
    if s.len() > 0 {
        lemma_filter_count(s.drop_last(), p, v);
        assert(s =~= s.drop_last().push(s.last()));
        s.drop_last().lemma_filter_push(s.last(), p);
        vstd::seq_lib::to_multiset_build(s.drop_last(), s.last());
        vstd::seq_lib::to_multiset_build(s.drop_last().filter(p), s.last());
    } else {
        lemma_empty_to_multiset::<A>();
        assert(s.filter(p) =~= Seq::<A>::empty()) by {
            reveal(Seq::filter);
        }
        assert(s =~= Seq::<A>::empty());
    }
}

/// Sequences with the same multiset have filters of the same length.
proof fn lemma_filter_same_len<A>(a: Seq<A>, b: Seq<A>, p: spec_fn(A) -> bool)
    requires
        a.to_multiset() == b.to_multiset(),
    ensures
        a.filter(p).len() == b.filter(p).len(),
{
    assert forall|v: A| #[trigger] a.filter(p).to_multiset().count(v) == b.filter(p).to_multiset().count(v) by {
        lemma_filter_count(a, p, v);
        lemma_filter_count(b, p, v);
    }
    assert(a.filter(p).to_multiset() =~= b.filter(p).to_multiset());
    vstd::seq_lib::to_multiset_len(a.filter(p));
    vstd::seq_lib::to_multiset_len(b.filter(p));
}

/// Filtering twice is filtering once by the conjunction.
proof fn lemma_filter_filter<A>(s: Seq<A>, p: spec_fn(A) -> bool, q: spec_fn(A) -> bool, r: spec_fn(A) -> bool)
    requires
        forall|x: A| #[trigger] r(x) == (p(x) && q(x)),
    ensures
        s.filter(p).filter(q) == s.filter(r),
    decreases s.len(),
{
    if s.len() == 0 {
        assert(s.filter(p) =~= Seq::<A>::empty()) by {
            reveal(Seq::filter);
        }
        assert(s.filter(r) =~= Seq::<A>::empty()) by {
            reveal(Seq::filter);
        }
        assert(s.filter(p).filter(q) =~= Seq::<A>::empty()) by {
            reveal(Seq::filter);
        }
    } else {
        let d = s.drop_last();
        let x = s.last();
        lemma_filter_filter(d, p, q, r);
        assert(s =~= d.push(x));
        d.lemma_filter_push(x, p);
        d.lemma_filter_push(x, r);
        d.filter(p).lemma_filter_push(x, q);
        assert(r(x) == (p(x) && q(x)));
    }
}

/// A filter that no element passes is empty.
proof fn lemma_filter_none<A>(s: Seq<A>, p: spec_fn(A) -> bool)
    requires
        forall|x: A| s.contains(x) ==> !p(x),
    ensures
        s.filter(p).len() == 0,
{
    if s.filter(p).len() > 0 {
        let x = s.filter(p)[0];
        assert(s.filter(p).contains(x));
        lemma_filter_member(s, p, x);
    }
}

/// Replacing one element by another that the predicate treats alike keeps the filter length.
proof fn lemma_filter_update_len<A>(s: Seq<A>, j: int, x: A, p: spec_fn(A) -> bool)
    requires
        0 <= j < s.len(),
        p(x) == p(s[j]),
    ensures
        s.update(j, x).filter(p).len() == s.filter(p).len(),
{
    let a = s.take(j);
    let c = s.skip(j + 1);
    assert(s =~= a + seq![s[j]] + c);
    assert(s.update(j, x) =~= a + seq![x] + c);
    Seq::filter_distributes_over_add(a + seq![s[j]], c, p);
    Seq::filter_distributes_over_add(a, seq![s[j]], p);
    Seq::filter_distributes_over_add(a + seq![x], c, p);
    Seq::filter_distributes_over_add(a, seq![x], p);
    lemma_filter_singleton(s[j], p);
    lemma_filter_singleton(x, p);
}

/// The real blocks of all buckets, bucket after bucket.
pub open spec fn tree_blocks(t: Seq<Seq<BlockView>>) -> Seq<BlockView>
    decreases t.len(),
{
    if t.len() == 0 {
        seq![]
    } else {
        tree_blocks(t.drop_last()) + real_of(t.last())
    }
}

/// How many real blocks with id `k` the stash and the buckets hold.
pub open spec fn copies_in(s: Seq<BlockView>, t: Seq<Seq<BlockView>>, k: u64) -> nat {
    (real_of(s) + tree_blocks(t)).filter(id_pred(k)).len()
}

/// A block among the buckets' blocks is a real block of some bucket.
proof fn lemma_tree_blocks_member(t: Seq<Seq<BlockView>>, b: BlockView)
    requires
        tree_blocks(t).contains(b),
    ensures
        is_real(b),
        exists|i: int, q: int| 0 <= i < t.len() && 0 <= q < t[i].len() && #[trigger] t[i][q] == b,
    decreases t.len(),
{
    let d = t.drop_last();
    lemma_concat_contains(tree_blocks(d), real_of(t.last()), b);
    if tree_blocks(d).contains(b) {
        lemma_tree_blocks_member(d, b);
        let (i, q) = choose|i: int, q: int| 0 <= i < d.len() && 0 <= q < d[i].len() && #[trigger] d[i][q] == b;
        assert(t[i][q] == b);
    } else {
        lemma_filter_member(t.last(), real_pred(), b);
        let q = choose|q: int| 0 <= q < t.last().len() && t.last()[q] == b;
        assert(t[t.len() - 1][q] == b);
    }
}

/// Replacing one bucket swaps its real blocks in the multiset of all buckets' blocks.
proof fn lemma_tree_blocks_update(t: Seq<Seq<BlockView>>, i: int, nb: Seq<BlockView>)
    requires
        0 <= i < t.len(),
    ensures
        tree_blocks(t.update(i, nb)).to_multiset().add(real_of(t[i]).to_multiset())
            == tree_blocks(t).to_multiset().add(real_of(nb).to_multiset()),
    decreases t.len(),
{
    let t2 = t.update(i, nb);
    let d = t.drop_last();
    let d2 = t2.drop_last();
    vstd::seq_lib::lemma_multiset_commutative(tree_blocks(d), real_of(t.last()));
    vstd::seq_lib::lemma_multiset_commutative(tree_blocks(d2), real_of(t2.last()));
    if i == t.len() - 1 {
        assert(d2 =~= d);
        assert(t2.last() == nb);
        assert(tree_blocks(t2).to_multiset().add(real_of(t[i]).to_multiset()) =~= tree_blocks(
            t,
        ).to_multiset().add(real_of(nb).to_multiset()));
    } else {
        assert(d2 =~= d.update(i, nb));
        assert(t2.last() == t.last());
        assert(d[i] == t[i]);
        lemma_tree_blocks_update(d, i, nb);
        assert(tree_blocks(t2) == tree_blocks(d2) + real_of(t2.last()));
        assert(tree_blocks(t) == tree_blocks(d) + real_of(t.last()));
        let a2 = tree_blocks(d2).to_multiset();
        let a = tree_blocks(d).to_multiset();
        let l = real_of(t.last()).to_multiset();
        let x = real_of(t[i]).to_multiset();
        let y = real_of(nb).to_multiset();
        assert(a2.add(x) == a.add(y));
        assert forall|v: BlockView| #[trigger] a2.add(l).add(x).count(v) == a.add(l).add(y).count(v) by {
            assert(a2.add(x).count(v) == a.add(y).count(v));
        }
        assert(tree_blocks(t2).to_multiset().add(real_of(t[i]).to_multiset()) =~= tree_blocks(
            t,
        ).to_multiset().add(real_of(nb).to_multiset()));
    }
}

/// Buckets that change only on a path trade their blocks through the path's blocks:
/// `all(t2) + path(t) == all(t) + path(t2)` as multisets.
proof fn lemma_tree_frame(t: Seq<Seq<BlockView>>, t2: Seq<Seq<BlockView>>, path: Seq<usize>)
    requires
        t.len() == t2.len(),
        t.len() <= usize::MAX,
        forall|a: int, b: int| 0 <= a < b < path.len() ==> path[a] < path[b],
        forall|a: int| 0 <= a < path.len() ==> #[trigger] path[a] < t.len(),
        forall|i: int| 0 <= i < t.len() && !path.contains(i as usize) ==> #[trigger] t2[i] == t[i],
    ensures
        tree_blocks(t2).to_multiset().add(path_blocks(t, path).to_multiset()) == tree_blocks(
            t,
        ).to_multiset().add(path_blocks(t2, path).to_multiset()),
    decreases path.len(),
{
    if path.len() == 0 {
        assert(t2 =~= t) by {
            assert forall|i: int| 0 <= i < t.len() implies t2[i] == t[i] by {
                assert(!path.contains(i as usize));
            }
        }
        assert(path_blocks(t, path).to_multiset() =~= path_blocks(t2, path).to_multiset());
    } else {
        let last = path.last() as int;
        let pre = path.drop_last();
        let t3 = t2.update(last, t[last]);
        assert forall|i: int| 0 <= i < t.len() && !pre.contains(i as usize) implies #[trigger] t3[i] == t[i] by {
            if i != last {
                if path.contains(i as usize) {
                    let m = choose|m: int| 0 <= m < path.len() && path[m] == i as usize;
                    if m < path.len() - 1 {
                        assert(pre[m] == i as usize);
                    }
                }
            }
        }
        lemma_tree_frame(t, t3, pre);
        assert forall|m: int| 0 <= m < pre.len() && pre[m] < t3.len() implies t3[pre[m] as int] == t2[pre[m] as int] by {
            assert(pre[m] == path[m]);
            assert(path[m] < path[path.len() - 1]);
        }
        lemma_path_blocks_frame(t3, t2, pre);
        assert(t3.update(last, t2[last]) =~= t2);
        lemma_tree_blocks_update(t3, last, t2[last]);
        assert(path_blocks(t, path) == path_blocks(t, pre) + real_of(t[last]));
        assert(path_blocks(t2, path) == path_blocks(t2, pre) + real_of(t2[last]));
        vstd::seq_lib::lemma_multiset_commutative(path_blocks(t, pre), real_of(t[last]));
        vstd::seq_lib::lemma_multiset_commutative(path_blocks(t2, pre), real_of(t2[last]));
        let b2 = tree_blocks(t2).to_multiset();
        let b3 = tree_blocks(t3).to_multiset();
        let b = tree_blocks(t).to_multiset();
        let pt = path_blocks(t, pre).to_multiset();
        let p2 = path_blocks(t2, pre).to_multiset();
        let rt = real_of(t[last]).to_multiset();
        let r2 = real_of(t2[last]).to_multiset();
        assert(t3[last] == t[last]);
        assert(b3.add(pt) == b.add(p2));
        assert(b2.add(rt) == b3.add(r2));
        assert forall|v: BlockView| #[trigger] b2.add(pt.add(rt)).count(v) == b.add(p2.add(r2)).count(v) by {
            assert(b3.add(pt).count(v) == b.add(p2).count(v));
            assert(b2.add(rt).count(v) == b3.add(r2).count(v));
        }
        assert(tree_blocks(t2).to_multiset().add(path_blocks(t, path).to_multiset()) =~= tree_blocks(
            t,
        ).to_multiset().add(path_blocks(t2, path).to_multiset()));
    }
}

} // verus!

verus! {

/// The real blocks of the stash and the buckets together.
pub open spec fn all_blocks(s: Seq<BlockView>, t: Seq<Seq<BlockView>>) -> Seq<BlockView> {
    real_of(s) + tree_blocks(t)
}

/// Reading a path moves its blocks from the buckets to the end of the stash and keeps every
/// block.
proof fn lemma_read_path_keeps_blocks(
    s0: Seq<BlockView>,
    t0: Seq<Seq<BlockView>>,
    s1: Seq<BlockView>,
    t1: Seq<Seq<BlockView>>,
    path: Seq<usize>,
)
    requires
        s1 == s0 + path_blocks(t0, path),
        t0.len() == t1.len(),
        t0.len() <= usize::MAX,
        forall|a: int, b: int| 0 <= a < b < path.len() ==> path[a] < path[b],
        forall|a: int| 0 <= a < path.len() ==> #[trigger] path[a] < t0.len(),
        forall|i: int|
            0 <= i < t1.len() ==> if path.contains(i as usize) {
                real_of(#[trigger] t1[i]).len() == 0
            } else {
                t1[i] == t0[i]
            },
    ensures
        all_blocks(s1, t1).to_multiset() == all_blocks(s0, t0).to_multiset(),
{
    let pb0 = path_blocks(t0, path);
    let pb1 = path_blocks(t1, path);
    assert forall|a: int| 0 <= a < pb0.len() implies is_real(#[trigger] pb0[a]) by {
        assert(pb0.contains(pb0[a]));
        lemma_path_blocks_member(t0, path, pb0[a]);
    }
    lemma_all_real(pb0);
    Seq::filter_distributes_over_add(s0, pb0, real_pred());
    assert forall|x: BlockView| pb1.contains(x) implies !true by {
        lemma_path_blocks_member(t1, path, x);
        let (m, q) = choose|m: int, q: int|
            0 <= m < path.len() && path[m] < t1.len() && 0 <= q < t1[path[m] as int].len()
                && #[trigger] t1[path[m] as int][q] == x;
        assert(path.contains(path[m]));
        assert(real_of(t1[path[m] as int]).len() == 0);
        lemma_no_real_slot(t1[path[m] as int], q);
    }
    if pb1.len() > 0 {
        assert(pb1.contains(pb1[0]));
    }
    assert(pb1 =~= Seq::<BlockView>::empty());
    lemma_empty_to_multiset::<BlockView>();
    assert forall|i: int| 0 <= i < t0.len() && !path.contains(i as usize) implies #[trigger] t1[i] == t0[i] by {}
    lemma_tree_frame(t0, t1, path);
    vstd::seq_lib::lemma_multiset_commutative(real_of(s1), tree_blocks(t1));
    vstd::seq_lib::lemma_multiset_commutative(real_of(s0), tree_blocks(t0));
    vstd::seq_lib::lemma_multiset_commutative(real_of(s0), pb0);
    assert(real_of(s1) == real_of(s0) + pb0);
    let r0 = real_of(s0).to_multiset();
    let b0 = tree_blocks(t0).to_multiset();
    let b1 = tree_blocks(t1).to_multiset();
    let q0 = pb0.to_multiset();
    assert(pb1.to_multiset() =~= Multiset::<BlockView>::empty());
    assert(b1.add(q0) == b0.add(pb1.to_multiset()));
    assert forall|v: BlockView| #[trigger] r0.add(q0).add(b1).count(v) == r0.add(b0).count(v) by {
        assert(b1.add(q0).count(v) == b0.add(pb1.to_multiset()).count(v));
    }
    assert(all_blocks(s1, t1).to_multiset() =~= all_blocks(s0, t0).to_multiset());
}

/// Writing a path back, which trades blocks between the stash and the path's buckets only,
/// keeps every block.
proof fn lemma_write_back_keeps_blocks(
    s2: Seq<BlockView>,
    t1: Seq<Seq<BlockView>>,
    s3: Seq<BlockView>,
    t3: Seq<Seq<BlockView>>,
    path: Seq<usize>,
)
    requires
        t1.len() == t3.len(),
        t1.len() <= usize::MAX,
        forall|a: int, b: int| 0 <= a < b < path.len() ==> path[a] < path[b],
        forall|a: int| 0 <= a < path.len() ==> #[trigger] path[a] < t1.len(),
        forall|i: int|
            0 <= i < t3.len() && !path.contains(i as usize) ==> #[trigger] t3[i] == t1[i],
        real_of(s3).to_multiset().add(path_blocks(t3, path).to_multiset()) == real_of(
            s2,
        ).to_multiset().add(path_blocks(t1, path).to_multiset()),
    ensures
        all_blocks(s3, t3).to_multiset() == all_blocks(s2, t1).to_multiset(),
{
    lemma_tree_frame(t1, t3, path);
    vstd::seq_lib::lemma_multiset_commutative(real_of(s3), tree_blocks(t3));
    vstd::seq_lib::lemma_multiset_commutative(real_of(s2), tree_blocks(t1));
    let r3 = real_of(s3).to_multiset();
    let r2 = real_of(s2).to_multiset();
    let b3 = tree_blocks(t3).to_multiset();
    let b1 = tree_blocks(t1).to_multiset();
    let p3 = path_blocks(t3, path).to_multiset();
    let p1 = path_blocks(t1, path).to_multiset();
    assert forall|v: BlockView| #[trigger] r3.add(b3).count(v) == r2.add(b1).count(v) by {
        assert(r3.add(p3).count(v) == r2.add(p1).count(v));
        assert(b3.add(p1).count(v) == b1.add(p3).count(v));
    }
    assert(all_blocks(s3, t3).to_multiset() =~= all_blocks(s2, t1).to_multiset());
}

} // verus!

verus! {

/// For an id other than the empty-slot id, the copies are those with that id in the stash
/// and among the buckets' real blocks.
proof fn lemma_copies_split(s: Seq<BlockView>, t: Seq<Seq<BlockView>>, k: u64)
    requires
        k != EMPTY_BLOCK_ID,
    ensures
        copies_in(s, t, k) == s.filter(id_pred(k)).len() + tree_blocks(t).filter(id_pred(k)).len(),
{
    Seq::filter_distributes_over_add(real_of(s), tree_blocks(t), id_pred(k));
    lemma_filter_filter(s, real_pred(), id_pred(k), id_pred(k));
}

/// Sequences with the same ids position by position have as many blocks of each id.
proof fn lemma_same_ids_filter_len(a: Seq<BlockView>, b: Seq<BlockView>, k: u64)
    requires
        a.len() == b.len(),
        forall|i: int| 0 <= i < a.len() ==> (#[trigger] a[i]).0 == b[i].0,
    ensures
        a.filter(id_pred(k)).len() == b.filter(id_pred(k)).len(),
    decreases a.len(),
{
    if a.len() == 0 {
        assert(a.filter(id_pred(k)) =~= Seq::<BlockView>::empty()) by {
            reveal(Seq::filter);
        }
        assert(b.filter(id_pred(k)) =~= Seq::<BlockView>::empty()) by {
            reveal(Seq::filter);
        }
    } else {
        let a2 = a.drop_last();
        let b2 = b.drop_last();
        assert forall|i: int| 0 <= i < a2.len() implies (#[trigger] a2[i]).0 == b2[i].0 by {
            assert(a[i].0 == b[i].0);
        }
        lemma_same_ids_filter_len(a2, b2, k);
        assert(a =~= a2.push(a.last()));
        assert(b =~= b2.push(b.last()));
        a2.lemma_filter_push(a.last(), id_pred(k));
        b2.lemma_filter_push(b.last(), id_pred(k));
        assert(a.last().0 == b.last().0) by {
            assert(a[a.len() - 1].0 == b[a.len() - 1].0);
        }
    }
}

/// A well-formed ORAM holds exactly one real block for each stored id and none for any other
/// id, and the ids it reports as contained are the stored ids (with the empty-slot id, which
/// stores nothing).
pub proof fn lemma_one_block_per_id(o: PathOram, k: u64)
    requires
        o.wf(),
    ensures
        o.copies(k) == if o@.contains_key(k) {
            1nat
        } else {
            0nat
        },
        k != EMPTY_BLOCK_ID ==> (o.positions().contains_key(k) <==> o@.contains_key(k)),
{
    let m = o@;
    let s = o.stash_blocks();
    let t = o.buckets();
    assert(m.contains_key(k) <==> (o.positions().contains_key(k) && k != EMPTY_BLOCK_ID));
    if !m.contains_key(k) {
        assert forall|x: BlockView| all_blocks(s, t).contains(x) implies !id_pred(k)(x) by {
            lemma_concat_contains(real_of(s), tree_blocks(t), x);
            if real_of(s).contains(x) {
                lemma_filter_member(s, real_pred(), x);
                let j = choose|j: int| 0 <= j < s.len() && s[j] == x;
                assert(is_real(s[j]) && block_fits(m, s[j]));
            } else {
                lemma_tree_blocks_member(t, x);
                let (i, q) = choose|i: int, q: int| 0 <= i < t.len() && 0 <= q < t[i].len() && #[trigger] t[i][q] == x;
                assert(is_real(t[i][q]));
            }
        }
        lemma_filter_none(all_blocks(s, t), id_pred(k));
    }
}

} // verus!
