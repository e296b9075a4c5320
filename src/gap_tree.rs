//! The dense gap tree: a binary Merkle tree of depth 32 over gap leaves,
//! stored as a flat array of nodes in level order.
//!
//! Level 0 holds the leaves; each higher level holds `ceil(w / 2)` nodes of
//! a level of width `w`. A node outside its level's width is the empty root of
//! that level, so the tree is the full depth-32 tree padded with empty
//! subtrees.
use vstd::prelude::*;

use crate::codec::{le_bytes, le_value, lemma_le_round_trip, pack_into, packed, push_le_u64, read_le_u64, unpack_from, views};
use crate::hash::{hash_input_ok, hash_leaf, hash_node, leaf_hash, node_hash};
use crate::mapping::{gap_left, gap_right, min_nullifier, min_sentinel, MerklePathError};
use crate::order::{Nullifier, Pool};

verus! {

/// Depth of the gap tree.
pub const NON_MEMBERSHIP_TREE_DEPTH: u8 = 32;

/// Number of levels, leaves and root included.
pub const TREE_LEVEL_COUNT: usize = 33;

/// Leaf counts must stay below this bound.
pub const MAX_LEAVES: u64 = 0x1_0000_0000;

/// Width of `level` in a tree of `n` leaves.
pub open spec fn width(n: nat, level: nat) -> nat
    decreases level,
{
    if level == 0 {
        n
    } else {
        ((width(n, (level - 1) as nat) + 1) / 2) as nat
    }
}

/// Index of the first node of `level` in the flat level-order array.
pub open spec fn offset(n: nat, level: nat) -> nat
    decreases level,
{
    if level == 0 {
        0
    } else {
        offset(n, (level - 1) as nat) + width(n, (level - 1) as nat)
    }
}

/// Number of nodes of a tree of `n` leaves, all 33 levels together.
pub open spec fn total_nodes(n: nat) -> nat {
    offset(n, 33)
}

/// `2^k`.
pub open spec fn pow2(k: nat) -> nat
    decreases k,
{
    if k == 0 {
        1
    } else {
        2 * pow2((k - 1) as nat)
    }
}

/// The leaf counts a tree accepts: at least one, below 2^32, and small
/// enough for the serialised form to be addressed on this machine.
pub open spec fn leaf_count_ok(n: int) -> bool {
    1 <= n < 0x1_0000_0000 && 64 * n + 2048 <= usize::MAX
}

/// Root of an empty subtree of height `level`.
pub open spec fn empty_root(pool: Pool, level: nat) -> Seq<u8>
    decreases level,
{
    if level == 0 {
        leaf_hash(pool, min_sentinel(), min_sentinel())
    } else {
        let e = empty_root(pool, (level - 1) as nat);
        node_hash(pool, (level - 1) as nat, e, e)
    }
}

/// Node `idx` of `level` of the tree over `leaves`.
pub open spec fn subtree(pool: Pool, leaves: Seq<Seq<u8>>, level: nat, idx: nat) -> Seq<u8>
    decreases level,
{
    if idx >= width(leaves.len(), level) {
        empty_root(pool, level)
    } else if level == 0 {
        leaves[idx as int]
    } else {
        node_hash(
            pool,
            (level - 1) as nat,
            subtree(pool, leaves, (level - 1) as nat, 2 * idx),
            subtree(pool, leaves, (level - 1) as nat, 2 * idx + 1),
        )
    }
}

/// Root of the tree over `leaves`.
pub open spec fn tree_root(pool: Pool, leaves: Seq<Seq<u8>>) -> Seq<u8> {
    subtree(pool, leaves, 32, 0)
}

/// The gap leaves of a sorted chain: `|chain| + 1` leaves, leaf `i` hashing
/// the bounds of gap `i`.
pub open spec fn gap_leaves(pool: Pool, chain: Seq<Nullifier>) -> Seq<Seq<u8>> {
    Seq::new(chain.len() + 1, |i: int| leaf_hash(pool, gap_left(chain, i), gap_right(pool, chain, i)))
}

/// What a tree holds: its pool, its leaf count and its nodes in level order.
pub ghost struct GapTreeView {
    pub pool: Pool,
    pub leaf_count: nat,
    pub nodes: Seq<Seq<u8>>,
}

/// The layout agrees with the leaf count.
pub open spec fn shape_ok(v: GapTreeView) -> bool {
    leaf_count_ok(v.leaf_count as int) && v.nodes.len() == total_nodes(v.leaf_count)
}

/// Node `idx` of `level`; outside the level's width, the empty root.
pub open spec fn node_of(v: GapTreeView, level: nat, idx: nat) -> Seq<u8> {
    if idx < width(v.leaf_count, level) {
        v.nodes[(offset(v.leaf_count, level) + idx) as int]
    } else {
        empty_root(v.pool, level)
    }
}

/// Every node of `v` is the node of the tree over `leaves`.
pub open spec fn built_from(v: GapTreeView, leaves: Seq<Seq<u8>>) -> bool {
    &&& shape_ok(v)
    &&& leaves.len() == v.leaf_count
    &&& forall|level: nat, idx: nat|
        level <= 32 && idx < width(v.leaf_count, level) ==> #[trigger] node_of(v, level, idx) == subtree(
            v.pool,
            leaves,
            level,
            idx,
        )
}

/// `p` shifted right by `level` bits.
pub open spec fn up(p: nat, level: nat) -> nat
    decreases level,
{
    if level == 0 {
        p
    } else {
        up(p, (level - 1) as nat) / 2
    }
}

/// The other child of the same parent.
pub open spec fn sibling(j: nat) -> nat {
    if j % 2 == 0 {
        j + 1
    } else {
        (j - 1) as nat
    }
}

/// The witness of position `p`: the sibling of its ancestor at each level.
pub open spec fn witness_of(v: GapTreeView, p: nat) -> Seq<Seq<u8>> {
    Seq::new(32, |level: int| node_of(v, level as nat, sibling(up(p, level as nat))))
}

/// The root recomputed from a leaf at position `p` and a path of siblings,
/// after `level` levels.
pub open spec fn fold_path(pool: Pool, leaf: Seq<u8>, p: nat, path: Seq<Seq<u8>>, level: nat) -> Seq<u8>
    decreases level,
{
    if level == 0 {
        leaf
    } else {
        let below = fold_path(pool, leaf, p, path, (level - 1) as nat);
        if up(p, (level - 1) as nat) % 2 == 0 {
            node_hash(pool, (level - 1) as nat, below, path[level - 1])
        } else {
            node_hash(pool, (level - 1) as nat, path[level - 1], below)
        }
    }
}

proof fn lemma_width_bounds(n: nat, level: nat)
    requires
        1 <= n <= pow2(32),
        level <= 32,
    ensures
        1 <= width(n, level) <= pow2((32 - level) as nat),
        width(n, level) <= n,
    decreases level,
{
    if level > 0 {
        lemma_width_bounds(n, (level - 1) as nat);
        assert(pow2((32 - (level - 1)) as nat) == 2 * pow2((32 - level) as nat));
    }
}

proof fn lemma_offset_bound(n: nat, level: nat)
    ensures
        offset(n, level) + 2 * width(n, level) <= 2 * n + level,
    decreases level,
{
    if level > 0 {
        lemma_offset_bound(n, (level - 1) as nat);
    }
}

proof fn lemma_offset_monotone(n: nat, a: nat, b: nat)
    requires
        a <= b,
    ensures
        offset(n, a) + (if a < b { width(n, a) } else { 0 }) <= offset(n, b),
    decreases b - a,
{
    if a < b {
        lemma_offset_monotone(n, a, (b - 1) as nat);
    }
}

proof fn lemma_pow2_32()
    ensures
        pow2(32) == 0x1_0000_0000,
{
    reveal_with_fuel(pow2, 33);
}

/// The layout of a valid leaf count stays small: the root level has width
/// one and the node count is at most `2n + 33`.
proof fn lemma_layout(n: nat)
    requires
        leaf_count_ok(n as int),
    ensures
        width(n, 32) == 1,
        total_nodes(n) == offset(n, 32) + 1,
        total_nodes(n) <= 2 * n + 33,
        forall|l: nat| l <= 32 ==> 1 <= #[trigger] width(n, l) <= n,
{
    lemma_pow2_32();
    lemma_width_bounds(n, 32);
    assert(pow2(0) == 1);
    lemma_offset_bound(n, 33);
    assert forall|l: nat| l <= 32 implies 1 <= #[trigger] width(n, l) <= n by {
        lemma_width_bounds(n, l);
    }
}

/// Node `idx` at `level + 1` hashes its two children at `level`, inside or
/// outside the level's width.
proof fn lemma_subtree_step(pool: Pool, leaves: Seq<Seq<u8>>, level: nat, idx: nat)
    ensures
        subtree(pool, leaves, level + 1, idx) == node_hash(
            pool,
            level,
            subtree(pool, leaves, level, 2 * idx),
            subtree(pool, leaves, level, 2 * idx + 1),
        ),
{
    let w = width(leaves.len(), level);
    if idx >= width(leaves.len(), level + 1) {
        assert(2 * idx >= w);
        assert(subtree(pool, leaves, level, 2 * idx) == empty_root(pool, level));
        assert(subtree(pool, leaves, level, 2 * idx + 1) == empty_root(pool, level));
    }
}

proof fn lemma_up_in_width(n: nat, p: nat, level: nat)
    requires
        p < n,
    ensures
        up(p, level) < width(n, level),
    decreases level,
{
    if level > 0 {
        lemma_up_in_width(n, p, (level - 1) as nat);
    }
}

/// Recomputing from leaf `p` of a tree built over `leaves` and its witness
/// reproduces the root of every level on the way up.
proof fn lemma_fold_path(v: GapTreeView, leaves: Seq<Seq<u8>>, p: nat, level: nat)
    requires
        built_from(v, leaves),
        p < v.leaf_count,
        level <= 32,
    ensures
        fold_path(v.pool, leaves[p as int], p, witness_of(v, p), level) == subtree(v.pool, leaves, level, up(p, level)),
    decreases level,
{
    let pool = v.pool;
    let n = v.leaf_count;
    if level == 0 {
        assert(p < width(n, 0));
    } else {
        let l = (level - 1) as nat;
        lemma_fold_path(v, leaves, p, l);
        let j = up(p, l);
        lemma_up_in_width(n, p, l);
        let s = sibling(j);
        assert(witness_of(v, p)[l as int] == node_of(v, l, s));
        if s < width(n, l) {
            assert(node_of(v, l, s) == subtree(pool, leaves, l, s));
        } else {
            assert(node_of(v, l, s) == empty_root(pool, l));
            assert(subtree(pool, leaves, l, s) == empty_root(pool, l));
        }
        lemma_subtree_step(pool, leaves, l, j / 2);
        if j % 2 == 0 {
            assert(2 * (j / 2) == j);
        } else {
            assert(2 * (j / 2) + 1 == j);
        }
    }
}

/// Witness correctness: for every leaf position `p` of a tree built over
/// `leaves`, hashing leaf `p` up the tree with the witness of `p` gives the
/// tree's root.
pub proof fn lemma_witness_recomputes_root(v: GapTreeView, leaves: Seq<Seq<u8>>, p: nat)
    requires
        built_from(v, leaves),
        p < v.leaf_count,
    ensures
        fold_path(v.pool, leaves[p as int], p, witness_of(v, p), 32) == node_of(v, 32, 0),
        node_of(v, 32, 0) == tree_root(v.pool, leaves),
{
    let n = v.leaf_count;
    lemma_layout(n);
    lemma_fold_path(v, leaves, p, 32);
    lemma_up_in_width(n, p, 32);
    assert(node_of(v, 32, 0) == subtree(v.pool, leaves, 32, 0));
}

/// `bytes` is a well-formed serialised tree: a little-endian leaf count in
/// range, then exactly the node count that the layout predicts.
pub open spec fn decodes_ok(bytes: Seq<u8>) -> bool {
    &&& bytes.len() >= 8
    &&& leaf_count_ok(le_value(bytes) as int)
    &&& bytes.len() == 8 + 32 * total_nodes(le_value(bytes) as nat)
}

/// `bytes` serialises `v`: its leaf count, then its nodes in level order.
pub open spec fn encodes(bytes: Seq<u8>, v: GapTreeView) -> bool {
    &&& bytes.len() == 8 + 32 * v.nodes.len()
    &&& bytes.take(8) == le_bytes(v.leaf_count as u64)
    &&& packed(bytes.skip(8), v.nodes)
}

/// Round trip of the dense-tree file: the bytes of a tree decode, and
/// decode to that tree.
pub proof fn lemma_tree_bytes_round_trip(t: GapTreeView, bytes: Seq<u8>, back: GapTreeView)
    requires
        shape_ok(t),
        encodes(bytes, t),
        back.pool == t.pool,
        back.leaf_count == le_value(bytes),
        packed(bytes.skip(8), back.nodes),
    ensures
        decodes_ok(bytes),
        back == t,
{
    lemma_le_round_trip(t.leaf_count as u64);
    assert(le_value(bytes) == le_value(bytes.take(8)));
    crate::codec::lemma_packed_unique(bytes.skip(8), t.nodes, back.nodes);
}

/// Checks a leaf count against the supported range.
pub fn validate_leaf_count(leaf_count: usize) -> (r: Result<(), MerklePathError>)
    ensures
        r is Ok <==> leaf_count_ok(leaf_count as int),
        leaf_count == 0 ==> r == Err::<(), MerklePathError>(
            MerklePathError::Unexpected("gap-tree leaf count must be greater than zero"),
        ),
        leaf_count > 0 && !leaf_count_ok(leaf_count as int) ==> r == Err::<(), MerklePathError>(
            MerklePathError::LeavesOverflow(leaf_count),
        ),
{
    if leaf_count == 0 {
        return Err(MerklePathError::Unexpected("gap-tree leaf count must be greater than zero"));
    }
    if leaf_count as u64 >= MAX_LEAVES || leaf_count > (usize::MAX - 2048) / 64 {
        return Err(MerklePathError::LeavesOverflow(leaf_count));
    }
    Ok(())
}

/// Widths and offsets of the 33 levels, and the total node count.
pub fn level_layout(leaf_count: usize) -> (r: (Vec<usize>, Vec<usize>, usize))
    requires
        leaf_count_ok(leaf_count as int),
    ensures
        r.0@.len() == TREE_LEVEL_COUNT,
        r.1@.len() == TREE_LEVEL_COUNT,
        forall|l: int| 0 <= l < 33 ==> #[trigger] r.0@[l] == width(leaf_count as nat, l as nat),
        forall|l: int| 0 <= l < 33 ==> #[trigger] r.1@[l] == offset(leaf_count as nat, l as nat),
        r.2 == total_nodes(leaf_count as nat),
{
    let ghost n = leaf_count as nat;
    proof {
        lemma_layout(n);
    }
    let mut widths: Vec<usize> = Vec::new();
    let mut offsets: Vec<usize> = Vec::new();
    let mut width_now: usize = leaf_count;
    let mut offset_now: usize = 0;
    let mut level: usize = 0;
    while level < TREE_LEVEL_COUNT
        invariant
            0 <= level <= 33,
            leaf_count_ok(n as int),
            n == leaf_count,
            widths@.len() == level,
            offsets@.len() == level,
            width_now == width(n, level as nat),
            offset_now == offset(n, level as nat),
            forall|l: int| 0 <= l < level ==> #[trigger] widths@[l] == width(n, l as nat),
            forall|l: int| 0 <= l < level ==> #[trigger] offsets@[l] == offset(n, l as nat),
        decreases 33 - level,
    {
        proof {
            lemma_offset_bound(n, level as nat);
            lemma_width_bounds_any(n, level as nat);
        }
        widths.push(width_now);
        offsets.push(offset_now);
        offset_now = offset_now + width_now;
        width_now = width_now / 2 + width_now % 2;
        level = level + 1;
    }
    (widths, offsets, offset_now)
}

proof fn lemma_width_bounds_any(n: nat, level: nat)
    ensures
        width(n, level) <= n,
    decreases level,
{
    if level > 0 {
        lemma_width_bounds_any(n, (level - 1) as nat);
    }
}

/// Stored node `idx` of `level`, as a view.
pub open spec fn stored(nodes: Seq<Nullifier>, n: nat, level: nat, idx: nat) -> Seq<u8> {
    nodes[(offset(n, level) + idx) as int]@
}

/// A dense gap tree of one pool.
pub struct DenseGapTree {
    pool: Pool,
    leaf_count: usize,
    level_widths: Vec<usize>,
    level_offsets: Vec<usize>,
    nodes: Vec<Nullifier>,
    empty_roots: Vec<Nullifier>,
}

impl View for DenseGapTree {
    type V = GapTreeView;

    closed spec fn view(&self) -> GapTreeView {
        GapTreeView {
            pool: self.pool,
            leaf_count: self.leaf_count as nat,
            nodes: views(self.nodes@),
        }
    }
}

/// The cached empty roots of every level.
pub open spec fn empty_roots_ok(pool: Pool, e: Seq<Nullifier>) -> bool {
    &&& e.len() == TREE_LEVEL_COUNT
    &&& forall|l: int| 0 <= l < 33 ==> (#[trigger] e[l])@ == empty_root(pool, l as nat) && hash_input_ok(pool, e[l]@)
}

/// Computes the empty root of every level.
fn compute_empty_roots(pool: Pool) -> (r: Vec<Nullifier>)
    ensures
        empty_roots_ok(pool, r@),
{
    let zero = min_nullifier();
    proof {
        crate::pallas::lemma_zero_is_canonical();
    }
    let mut e = hash_leaf(pool, &zero, &zero);
    let mut roots: Vec<Nullifier> = Vec::new();
    let mut level: usize = 0;
    while level < TREE_LEVEL_COUNT
        invariant
            0 <= level <= 33,
            roots@.len() == level,
            level <= 32 ==> e@ == empty_root(pool, level as nat),
            hash_input_ok(pool, e@),
            forall|l: int| 0 <= l < level ==> (#[trigger] roots@[l])@ == empty_root(pool, l as nat) && hash_input_ok(pool, roots@[l]@),
        decreases 33 - level,
    {
        roots.push(e);
        if level < 32 {
            e = hash_node(pool, level as u8, &e, &e);
        }
        level = level + 1;
    }
    roots
}

impl DenseGapTree {
    #[verifier::type_invariant]
    closed spec fn inv(&self) -> bool {
        &&& leaf_count_ok(self.leaf_count as int)
        &&& self.level_widths@.len() == TREE_LEVEL_COUNT
        &&& self.level_offsets@.len() == TREE_LEVEL_COUNT
        &&& forall|l: int| 0 <= l < 33 ==> #[trigger] self.level_widths@[l] == width(self.leaf_count as nat, l as nat)
        &&& forall|l: int| 0 <= l < 33 ==> #[trigger] self.level_offsets@[l] == offset(self.leaf_count as nat, l as nat)
        &&& self.nodes@.len() == total_nodes(self.leaf_count as nat)
        &&& empty_roots_ok(self.pool, self.empty_roots@)
    }

    /// Builds the tree over `leaves`, hashing level by level.
    pub fn from_leaves(pool: Pool, leaves: Vec<Nullifier>) -> (r: Result<Self, MerklePathError>)
        requires
            forall|i: int| 0 <= i < leaves@.len() ==> hash_input_ok(pool, #[trigger] leaves@[i]@),
        ensures
            r is Ok <==> leaf_count_ok(leaves@.len() as int),
            r matches Ok(t) ==> t@.pool == pool && built_from(t@, views(leaves@)),
            leaves@.len() == 0 ==> r == Err::<Self, MerklePathError>(
                MerklePathError::Unexpected("gap-tree leaf count must be greater than zero"),
            ),
            leaves@.len() > 0 && !leaf_count_ok(leaves@.len() as int) ==> r == Err::<Self, MerklePathError>(
                MerklePathError::LeavesOverflow(leaves@.len() as usize),
            ),
    {
        let leaf_count = leaves.len();
        validate_leaf_count(leaf_count)?;
        let ghost n = leaf_count as nat;
        let ghost lv = views(leaves@);
        proof {
            lemma_layout(n);
        }
        let (level_widths, level_offsets, total) = level_layout(leaf_count);
        let empty_roots = compute_empty_roots(pool);
        let mut nodes: Vec<Nullifier> = Vec::with_capacity(total);
        let mut i: usize = 0;
        while i < leaf_count
            invariant
                0 <= i <= leaf_count,
                leaf_count == leaves@.len(),
                n == leaf_count,
                lv == views(leaves@),
                forall|k: int| 0 <= k < leaves@.len() ==> hash_input_ok(pool, #[trigger] leaves@[k]@),
                nodes@.len() == i,
                forall|k: int| 0 <= k < i ==> (#[trigger] nodes@[k]) == leaves@[k],
            decreases leaf_count - i,
        {
            nodes.push(leaves[i]);
            i = i + 1;
        }
        proof {
            assert(offset(n, 1) == offset(n, 0) + width(n, 0));
            assert forall|idx: nat| idx < width(n, 0) implies #[trigger] stored(nodes@, n, 0, idx) == subtree(pool, lv, 0, idx) by {
                assert(nodes@[idx as int] == leaves@[idx as int]);
            }
        }
        let mut level: usize = 0;
        while level < 32
            invariant
                0 <= level <= 32,
                n == leaf_count,
                lv.len() == n,
                leaf_count_ok(n as int),
                level_widths@.len() == 33,
                level_offsets@.len() == 33,
                forall|l: int| 0 <= l < 33 ==> #[trigger] level_widths@[l] == width(n, l as nat),
                forall|l: int| 0 <= l < 33 ==> #[trigger] level_offsets@[l] == offset(n, l as nat),
                empty_roots_ok(pool, empty_roots@),
                nodes@.len() == offset(n, (level + 1) as nat),
                forall|k: int| 0 <= k < nodes@.len() ==> hash_input_ok(pool, #[trigger] nodes@[k]@),
                forall|l: nat, idx: nat|
                    l <= level && idx < width(n, l) ==> #[trigger] stored(nodes@, n, l, idx) == subtree(pool, lv, l, idx),
            decreases 32 - level,
        {
            let w = level_widths[level];
            let off = level_offsets[level];
            let next_width = level_widths[level + 1];
            proof {
                lemma_layout(n);
                lemma_offset_bound(n, (level + 1) as nat);
                assert(width(n, (level + 1) as nat) == (w + 1) / 2);
                assert(offset(n, (level + 1) as nat) == off + w);
            }
            let mut idx: usize = 0;
            while idx < next_width
                invariant
                    0 <= idx <= next_width,
                    n == leaf_count,
                    lv.len() == n,
                    leaf_count_ok(n as int),
                    level < 32,
                    w == width(n, level as nat),
                    off == offset(n, level as nat),
                    next_width == width(n, (level + 1) as nat),
                    next_width == (w + 1) / 2,
                    off + w == offset(n, (level + 1) as nat),
                    w <= n,
                    off + w + next_width <= 2 * n + 33,
                    empty_roots_ok(pool, empty_roots@),
                    nodes@.len() == off + w + idx,
                    forall|k: int| 0 <= k < nodes@.len() ==> hash_input_ok(pool, #[trigger] nodes@[k]@),
                    forall|l: nat, j: nat|
                        l <= level && j < width(n, l) ==> #[trigger] stored(nodes@, n, l, j) == subtree(pool, lv, l, j),
                    forall|j: nat| j < idx ==> #[trigger] stored(nodes@, n, (level + 1) as nat, j) == subtree(pool, lv, (level + 1) as nat, j),
                decreases next_width - idx,
            {
                let left = nodes[off + 2 * idx];
                let right = if 2 * idx + 1 < w {
                    nodes[off + 2 * idx + 1]
                } else {
                    empty_roots[level]
                };
                proof {
                    assert(stored(nodes@, n, level as nat, (2 * idx) as nat) == subtree(pool, lv, level as nat, (2 * idx) as nat));
                    if 2 * idx + 1 < w {
                        assert(stored(nodes@, n, level as nat, (2 * idx + 1) as nat) == subtree(pool, lv, level as nat, (2 * idx + 1) as nat));
                    }
                    lemma_subtree_step(pool, lv, level as nat, idx as nat);
                }
                let h = hash_node(pool, level as u8, &left, &right);
                let ghost before = nodes@;
                nodes.push(h);
                proof {
                    assert forall|l: nat, j: nat| l <= level && j < width(n, l) implies #[trigger] stored(nodes@, n, l, j) == subtree(pool, lv, l, j) by {
                        lemma_offset_monotone(n, l, (level + 1) as nat);
                        assert(stored(before, n, l, j) == subtree(pool, lv, l, j));
                        assert(nodes@[(offset(n, l) + j) as int] == before[(offset(n, l) + j) as int]);
                    }
                    assert forall|j: nat| j < idx + 1 implies #[trigger] stored(nodes@, n, (level + 1) as nat, j) == subtree(pool, lv, (level + 1) as nat, j) by {
                        if j < idx {
                            assert(stored(before, n, (level + 1) as nat, j) == subtree(pool, lv, (level + 1) as nat, j));
                            assert(nodes@[(offset(n, (level + 1) as nat) + j) as int] == before[(offset(n, (level + 1) as nat) + j) as int]);
                        }
                    }
                }
                idx = idx + 1;
            }
            level = level + 1;
        }
        proof {
            lemma_layout(n);
        }
        let tree = DenseGapTree { pool, leaf_count, level_widths, level_offsets, nodes, empty_roots };
        proof {
            let v = tree@;
            assert forall|l: nat, idx: nat| l <= 32 && idx < width(n, l) implies #[trigger] node_of(v, l, idx) == subtree(pool, lv, l, idx) by {
                lemma_offset_monotone(n, l, 33);
                assert(stored(tree.nodes@, n, l, idx) == subtree(pool, lv, l, idx));
            }
        }
        Ok(tree)
    }

    /// The root: the single node of the top level.
    pub fn root_bytes(&self) -> (r: Nullifier)
        ensures
            r@ == node_of(self@, 32, 0),
    {
        proof {
            use_type_invariant(self);
            lemma_layout(self.leaf_count as nat);
        }
        self.nodes[self.nodes.len() - 1]
    }

    /// Number of leaves.
    pub fn leaf_count(&self) -> (r: usize)
        ensures
            r == self@.leaf_count,
    {
        self.leaf_count
    }

    /// The pool whose hashes the tree uses.
    pub fn pool(&self) -> (r: Pool)
        ensures
            r == self@.pool,
    {
        self.pool
    }

    /// Stored node `index` of `level`.
    pub fn node_at(&self, level: usize, index: usize) -> (r: Nullifier)
        requires
            level < 33,
            index < width(self@.leaf_count, level as nat),
        ensures
            r@ == node_of(self@, level as nat, index as nat),
    {
        proof {
            use_type_invariant(self);
            lemma_layout(self.leaf_count as nat);
            lemma_offset_monotone(self.leaf_count as nat, level as nat, 33);
        }
        self.nodes[self.level_offsets[level] + index]
    }

    /// The 32 siblings on the path from leaf `leaf_position` to the root.
    pub fn witness_bytes(&self, leaf_position: u64) -> (r: Result<Vec<Nullifier>, MerklePathError>)
        ensures
            leaf_position >= self@.leaf_count ==> r == Err::<Vec<Nullifier>, MerklePathError>(
                MerklePathError::NotMarked(leaf_position),
            ),
            leaf_position < self@.leaf_count ==> (r matches Ok(w) && views(w@)
                == witness_of(self@, leaf_position as nat)),
    {
        proof {
            use_type_invariant(self);
            lemma_layout(self.leaf_count as nat);
        }
        if leaf_position >= self.leaf_count as u64 {
            return Err(MerklePathError::NotMarked(leaf_position));
        }
        let ghost n = self.leaf_count as nat;
        let ghost p = leaf_position as nat;
        let mut index: usize = leaf_position as usize;
        let mut witness: Vec<Nullifier> = Vec::with_capacity(32);
        let mut level: usize = 0;
        while level < 32
            invariant
                0 <= level <= 32,
                n == self.leaf_count,
                p == leaf_position,
                p < n,
                leaf_count_ok(n as int),
                self.level_widths@.len() == 33,
                self.level_offsets@.len() == 33,
                forall|l: int| 0 <= l < 33 ==> #[trigger] self.level_widths@[l] == width(n, l as nat),
                forall|l: int| 0 <= l < 33 ==> #[trigger] self.level_offsets@[l] == offset(n, l as nat),
                self.nodes@.len() == total_nodes(n),
                empty_roots_ok(self.pool, self.empty_roots@),
                index == up(p, level as nat),
                index < width(n, level as nat),
                witness@.len() == level,
                forall|l: int| 0 <= l < level ==> (#[trigger] witness@[l])@ == witness_of(self@, p)[l],
            decreases 32 - level,
        {
            proof {
                lemma_up_in_width(n, p, level as nat);
                lemma_up_in_width(n, p, (level + 1) as nat);
                lemma_layout(n);
                lemma_offset_monotone(n, level as nat, 33);
            }
            let width_here = self.level_widths[level];
            let sib: usize = if index % 2 == 0 {
                index + 1
            } else {
                index - 1
            };
            let node = if sib < width_here {
                self.nodes[self.level_offsets[level] + sib]
            } else {
                self.empty_roots[level]
            };
            proof {
                assert(sib == sibling(index as nat));
                assert(node@ == node_of(self@, level as nat, sib as nat));
            }
            witness.push(node);
            index = index / 2;
            level = level + 1;
        }
        proof {
            assert(views(witness@) =~= witness_of(self@, p));
        }
        Ok(witness)
    }

    /// Serialises the tree: the leaf count as a little-endian `u64`, then
    /// every node in level order.
    pub fn to_bytes(&self) -> (r: Vec<u8>)
        ensures
            encodes(r@, self@),
    {
        proof {
            use_type_invariant(self);
            lemma_layout(self.leaf_count as nat);
        }
        let mut bytes: Vec<u8> = Vec::new();
        push_le_u64(self.leaf_count as u64, &mut bytes);
        pack_into(self.nodes.as_slice(), &mut bytes);
        proof {
            assert(bytes@.take(8) =~= le_bytes(self.leaf_count as u64));
        }
        bytes
    }

    /// Reads a serialised tree of `pool`, checking the leaf count and the
    /// length; node bytes are taken as they stand.
    pub fn from_bytes(pool: Pool, bytes: &[u8]) -> (r: Result<Self, MerklePathError>)
        ensures
            r is Ok <==> decodes_ok(bytes@),
            bytes@.len() < 8 ==> r == Err::<Self, MerklePathError>(MerklePathError::Unexpected("gap-tree file is too short")),
            bytes@.len() >= 8 && le_value(bytes@) > usize::MAX ==> r == Err::<Self, MerklePathError>(
                MerklePathError::Unexpected("leaf count does not fit into usize"),
            ),
            bytes@.len() >= 8 && le_value(bytes@) == 0 ==> r == Err::<Self, MerklePathError>(
                MerklePathError::Unexpected("gap-tree leaf count must be greater than zero"),
            ),
            bytes@.len() >= 8 && 0 < le_value(bytes@) <= usize::MAX && !leaf_count_ok(le_value(bytes@) as int) ==> r == Err::<
                Self,
                MerklePathError,
            >(MerklePathError::LeavesOverflow(le_value(bytes@) as usize)),
            bytes@.len() >= 8 && leaf_count_ok(le_value(bytes@) as int) && !decodes_ok(bytes@) ==> r == Err::<Self, MerklePathError>(
                MerklePathError::Unexpected("gap-tree file length mismatch"),
            ),
            r matches Ok(t) ==> t@.pool == pool && t@.leaf_count == le_value(bytes@) && packed(bytes@.skip(8), t@.nodes),
    {
        if bytes.len() < 8 {
            return Err(MerklePathError::Unexpected("gap-tree file is too short"));
        }
        let leaf_count_u64 = read_le_u64(bytes);
        if leaf_count_u64 > usize::MAX as u64 {
            return Err(MerklePathError::Unexpected("leaf count does not fit into usize"));
        }
        let leaf_count = leaf_count_u64 as usize;
        validate_leaf_count(leaf_count)?;
        proof {
            lemma_layout(leaf_count as nat);
        }
        let (level_widths, level_offsets, total) = level_layout(leaf_count);
        if bytes.len() != 8 + 32 * total {
            return Err(MerklePathError::Unexpected("gap-tree file length mismatch"));
        }
        let nodes = unpack_from(bytes, 8, total);
        assert(bytes@.subrange(8, 8 + 32 * total) =~= bytes@.skip(8));
        let empty_roots = compute_empty_roots(pool);
        Ok(DenseGapTree { pool, leaf_count, level_widths, level_offsets, nodes, empty_roots })
    }
}

} // verus!
