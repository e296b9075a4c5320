//! The non-membership tree of one pool: the gap tree over a canonical chain
//! set, with the gaps of the user's nullifiers marked for witnessing.
use vstd::prelude::*;

use crate::codec::views;
use crate::gap_tree::{built_from, fold_path, gap_leaves, leaf_count_ok, lemma_witness_recomputes_root, node_of, tree_root, validate_leaf_count, witness_of, DenseGapTree, GapTreeView};
use crate::hash::{hash_input_ok, hash_leaf, leaf_hash};
use crate::mapping::{all_strict, canonical_prefix, gap_bounds, lemma_non_member_maps_once, map_positions, maps_users, max_sentinel, min_sentinel, non_canonical_error, MerklePathError, TreePosition};
use crate::nullifier_set::{is_sanitised, lemma_sanitise_deterministic, SanitisedNullifierSet};
use crate::order::{nf_lt, strictly_sorted, Nullifier, Pool};
use crate::pallas::{is_canonical_orchard, lemma_max_is_canonical, lemma_zero_is_canonical};

verus! {

/// The chain and user sets may be hashed and compared under `pool`.
pub open spec fn inputs_ok(pool: Pool, chain: Seq<Nullifier>, user: Seq<Nullifier>) -> bool {
    pool == Pool::Orchard ==> canonical_prefix(chain, chain.len() as int) && canonical_prefix(user, user.len() as int)
}

/// The gap leaves of a chain whose elements the pool's hashes accept.
pub fn gap_leaves_of(pool: Pool, chain: &[Nullifier]) -> (r: Vec<Nullifier>)
    requires
        chain@.len() < usize::MAX,
        forall|i: int| 0 <= i < chain@.len() ==> hash_input_ok(pool, #[trigger] chain@[i]@),
    ensures
        views(r@) == gap_leaves(pool, chain@),
        forall|i: int| 0 <= i < r@.len() ==> hash_input_ok(pool, #[trigger] r@[i]@),
{
    proof {
        lemma_zero_is_canonical();
        lemma_max_is_canonical();
    }
    let mut leaves: Vec<Nullifier> = Vec::new();
    let mut i: usize = 0;
    while i <= chain.len()
        invariant
            0 <= i <= chain@.len() + 1,
            chain@.len() < usize::MAX,
            forall|k: int| 0 <= k < chain@.len() ==> hash_input_ok(pool, #[trigger] chain@[k]@),
            leaves@.len() == i,
            forall|k: int| 0 <= k < i ==> (#[trigger] leaves@[k])@ == gap_leaves(pool, chain@)[k],
            forall|k: int| 0 <= k < i ==> hash_input_ok(pool, #[trigger] leaves@[k]@),
        decreases chain@.len() + 1 - i,
    {
        let (left, right) = gap_bounds(pool, chain, i);
        proof {
            lemma_zero_is_canonical();
            lemma_max_is_canonical();
            if i > 0 {
                assert(hash_input_ok(pool, chain@[i - 1]@));
            }
            if i < chain@.len() {
                assert(hash_input_ok(pool, chain@[i as int]@));
            } else {
                assert(right@ == max_sentinel(pool));
                if pool == Pool::Orchard {
                    assert(max_sentinel(pool) == crate::pallas::pallas_max());
                    assert(is_canonical_orchard(right@));
                }
            }
            if i == 0 {
                assert(left@ == min_sentinel());
            }
        }
        let leaf = hash_leaf(pool, &left, &right);
        leaves.push(leaf);
        i = i + 1;
    }
    assert(views(leaves@) =~= gap_leaves(pool, chain@));
    leaves
}

/// What the tree holds: the gap tree and the marked leaf positions.
pub ghost struct NonMembershipTreeView {
    pub tree: GapTreeView,
    pub marked: Seq<u64>,
}

/// A gap tree whose user gaps are marked; only marked positions are witnessed.
pub struct NonMembershipTree {
    tree: DenseGapTree,
    marked: Vec<u64>,
}

impl View for NonMembershipTree {
    type V = NonMembershipTreeView;

    closed spec fn view(&self) -> NonMembershipTreeView {
        NonMembershipTreeView { tree: self.tree@, marked: self.marked@ }
    }
}

/// `marked` holds exactly the leaf positions of `mapping`.
pub open spec fn marks_mapping(marked: Seq<u64>, mapping: Seq<TreePosition>) -> bool {
    forall|p: u64| marked.contains(p) <==> exists|i: int| 0 <= i < mapping.len() && (#[trigger] mapping[i]).leaf_position == p
}

/// The leaf positions of a mapping, each once per run.
fn marks_of(mapping: &Vec<TreePosition>) -> (r: Vec<u64>)
    ensures
        marks_mapping(r@, mapping@),
{
    let mut marked: Vec<u64> = Vec::new();
    let mut i: usize = 0;
    while i < mapping.len()
        invariant
            0 <= i <= mapping@.len(),
            marks_mapping(marked@, mapping@.take(i as int)),
            i > 0 ==> marked@.len() > 0 && marked@.last() == mapping@[i - 1].leaf_position,
            i == 0 ==> marked@.len() == 0,
        decreases mapping@.len() - i,
    {
        let p = mapping[i].leaf_position;
        let ghost before = marked@;
        let ghost prefix = mapping@.take(i as int);
        let ghost next = mapping@.take(i + 1);
        proof {
            assert(next =~= prefix.push(mapping@[i as int]));
        }
        if marked.len() == 0 || marked[marked.len() - 1] != p {
            marked.push(p);
            proof {
                assert forall|q: u64| marked@.contains(q) <==> exists|k: int| 0 <= k < next.len() && (#[trigger] next[k]).leaf_position == q by {
                    if marked@.contains(q) {
                        let j = choose|j: int| 0 <= j < marked@.len() && marked@[j] == q;
                        if j < before.len() {
                            assert(before[j] == q);
                            assert(before.contains(q));
                            let k = choose|k: int| 0 <= k < prefix.len() && (#[trigger] prefix[k]).leaf_position == q;
                            assert(next[k] == prefix[k]);
                        } else {
                            assert(next[i as int].leaf_position == q);
                        }
                    }
                    if exists|k: int| 0 <= k < next.len() && (#[trigger] next[k]).leaf_position == q {
                        let k = choose|k: int| 0 <= k < next.len() && (#[trigger] next[k]).leaf_position == q;
                        if k < i {
                            assert(prefix[k] == next[k]);
                            assert(before.contains(q));
                            let j = choose|j: int| 0 <= j < before.len() && before[j] == q;
                            assert(marked@[j] == q);
                        } else {
                            assert(marked@[marked@.len() - 1] == q);
                        }
                    }
                }
            }
        } else {
            proof {
                assert forall|q: u64| marked@.contains(q) <==> exists|k: int| 0 <= k < next.len() && (#[trigger] next[k]).leaf_position == q by {
                    if marked@.contains(q) {
                        let k = choose|k: int| 0 <= k < prefix.len() && (#[trigger] prefix[k]).leaf_position == q;
                        assert(next[k] == prefix[k]);
                    }
                    if exists|k: int| 0 <= k < next.len() && (#[trigger] next[k]).leaf_position == q {
                        let k = choose|k: int| 0 <= k < next.len() && (#[trigger] next[k]).leaf_position == q;
                        if k < i {
                            assert(prefix[k] == next[k]);
                        } else {
                            assert(marked@[marked@.len() - 1] == q);
                        }
                    }
                }
            }
        }
        i = i + 1;
    }
    proof {
        assert(mapping@.take(mapping@.len() as int) =~= mapping@);
    }
    marked
}

/// Checks the user set's pool and, for Orchard, the canonical encoding of
/// both sets.
fn check_inputs(chain: &SanitisedNullifierSet, user: &SanitisedNullifierSet) -> (r: Result<(), MerklePathError>)
    ensures
        user.pool_spec() != chain.pool_spec() ==> r == Err::<(), MerklePathError>(
            MerklePathError::PoolMismatch { expected: chain.pool_spec(), actual: user.pool_spec() },
        ),
        user.pool_spec() == chain.pool_spec() ==> (r is Ok <==> inputs_ok(chain.pool_spec(), chain@, user@)),
        user.pool_spec() == chain.pool_spec() && chain.pool_spec() == Pool::Orchard ==> {
            &&& !canonical_prefix(chain@, chain@.len() as int) ==> (r matches Err(e) && non_canonical_error("chain", chain@, e))
            &&& canonical_prefix(chain@, chain@.len() as int) && !canonical_prefix(user@, user@.len() as int) ==> (r matches Err(e)
                && non_canonical_error("user", user@, e))
        },
{
    if user.pool() != chain.pool() {
        return Err(MerklePathError::PoolMismatch { expected: chain.pool(), actual: user.pool() });
    }
    if chain.pool() == Pool::Orchard {
        crate::mapping::check_canonical("chain", chain.as_slice())?;
        crate::mapping::check_canonical("user", user.as_slice())?;
    }
    Ok(())
}

impl NonMembershipTree {
    /// Builds the tree over the chain set's gaps and marks the gap of every
    /// user nullifier that the chain does not contain. The user set must be
    /// of the chain's pool.
    pub fn from_chain_and_user_nullifiers(
        chain_nullifiers: &SanitisedNullifierSet,
        user_nullifiers: &SanitisedNullifierSet,
    ) -> (r: Result<(Self, Vec<TreePosition>), MerklePathError>)
        requires
            chain_nullifiers@.len() < usize::MAX,
        ensures
            ({
                let pool = chain_nullifiers.pool_spec();
                let chain = chain_nullifiers@;
                let user = user_nullifiers@;
                &&& user_nullifiers.pool_spec() != pool ==> r == Err::<(Self, Vec<TreePosition>), MerklePathError>(
                    MerklePathError::PoolMismatch { expected: pool, actual: user_nullifiers.pool_spec() },
                )
                &&& user_nullifiers.pool_spec() == pool && pool == Pool::Orchard && !canonical_prefix(chain, chain.len() as int)
                    ==> (r matches Err(e) && non_canonical_error("chain", chain, e))
                &&& user_nullifiers.pool_spec() == pool && pool == Pool::Orchard && canonical_prefix(chain, chain.len() as int)
                    && !canonical_prefix(user, user.len() as int) ==> (r matches Err(e) && non_canonical_error("user", user, e))
                &&& user_nullifiers.pool_spec() == pool && inputs_ok(pool, chain, user) && !leaf_count_ok(chain.len() + 1 as int) ==> r
                    == Err::<(Self, Vec<TreePosition>), MerklePathError>(MerklePathError::LeavesOverflow((chain.len() + 1) as usize))
                &&& user_nullifiers.pool_spec() == pool && inputs_ok(pool, chain, user) && leaf_count_ok(chain.len() + 1 as int) ==> (r matches Ok(
                    (t, mapping),
                ) && {
                    &&& t@.tree.pool == pool
                    &&& t@.tree.leaf_count == chain.len() + 1
                    &&& built_from(t@.tree, gap_leaves(pool, chain))
                    &&& maps_users(pool, chain, user, mapping@)
                    &&& all_strict(pool, mapping@)
                    &&& marks_mapping(t@.marked, mapping@)
                })
            }),
    {
        check_inputs(chain_nullifiers, user_nullifiers)?;
        let pool = chain_nullifiers.pool();
        let chain = chain_nullifiers.as_slice();
        let user = user_nullifiers.as_slice();
        validate_leaf_count(chain.len() + 1)?;
        let leaves = gap_leaves_of(pool, chain);
        proof {
            assert(views(leaves@).len() == leaves@.len());
        }
        let tree = DenseGapTree::from_leaves(pool, leaves)?;
        let mapping = map_positions(pool, chain, user);
        let marked = marks_of(&mapping);
        Ok((NonMembershipTree { tree, marked }, mapping))
    }

    /// Builds the tree over the chain set's gaps, with no position marked.
    pub fn from_nullifiers(nullifiers: &SanitisedNullifierSet) -> (r: Result<Self, MerklePathError>)
        requires
            nullifiers@.len() < usize::MAX,
        ensures
            ({
                let pool = nullifiers.pool_spec();
                let chain = nullifiers@;
                &&& pool == Pool::Orchard && !canonical_prefix(chain, chain.len() as int) ==> (r matches Err(e)
                    && non_canonical_error("chain", chain, e))
                &&& inputs_ok(pool, chain, seq![]) && !leaf_count_ok(chain.len() + 1 as int) ==> r == Err::<Self, MerklePathError>(
                    MerklePathError::LeavesOverflow((chain.len() + 1) as usize),
                )
                &&& inputs_ok(pool, chain, seq![]) && leaf_count_ok(chain.len() + 1 as int) ==> (r matches Ok(t) && {
                    &&& t@.tree.pool == pool
                    &&& t@.tree.leaf_count == chain.len() + 1
                    &&& built_from(t@.tree, gap_leaves(pool, chain))
                    &&& t@.marked.len() == 0
                })
            }),
    {
        let empty_user = SanitisedNullifierSet::new(Vec::new(), nullifiers.pool());
        proof {
            assert(empty_user@.len() == 0) by {
                if empty_user@.len() > 0 {
                    assert(empty_user@.contains(empty_user@[0]));
                }
            }
            assert(empty_user@ =~= seq![]);
        }
        let (tree, mapping) = Self::from_chain_and_user_nullifiers(nullifiers, &empty_user)?;
        proof {
            assert(mapping@.len() == 0);
            if tree@.marked.len() > 0 {
                assert(tree@.marked.contains(tree@.marked[0]));
            }
        }
        Ok(tree)
    }

    /// The root bytes.
    pub fn root_bytes(&self) -> (r: Nullifier)
        ensures
            r@ == node_of(self@.tree, 32, 0),
    {
        self.tree.root_bytes()
    }

    /// Number of leaves: one per gap.
    pub fn leaf_count(&self) -> (r: usize)
        ensures
            r == self@.tree.leaf_count,
    {
        self.tree.leaf_count()
    }

    /// The positions marked for witnessing.
    pub fn marked_positions(&self) -> (r: Vec<u64>)
        ensures
            r@ == self@.marked,
    {
        self.marked.clone()
    }

    /// The dense tree underneath, which can witness any position.
    pub fn dense(&self) -> (r: &DenseGapTree)
        ensures
            r@ == self@.tree,
    {
        &self.tree
    }

    /// The witness of a marked position; `NotMarked` for any other.
    pub fn witness_bytes(&self, position: u64) -> (r: Result<Vec<Nullifier>, MerklePathError>)
        ensures
            !self@.marked.contains(position) ==> r == Err::<Vec<Nullifier>, MerklePathError>(
                MerklePathError::NotMarked(position),
            ),
            self@.marked.contains(position) && position < self@.tree.leaf_count ==> (r matches Ok(w) && views(w@) == witness_of(self@.tree, position as nat)),
            self@.marked.contains(position) && position >= self@.tree.leaf_count ==> r == Err::<Vec<Nullifier>, MerklePathError>(
                MerklePathError::NotMarked(position),
            ),
    {
        let mut i: usize = 0;
        while i < self.marked.len()
            invariant
                0 <= i <= self.marked@.len(),
                forall|k: int| 0 <= k < i ==> self.marked@[k] != position,
            decreases self.marked@.len() - i,
        {
            if self.marked[i] == position {
                return self.tree.witness_bytes(position);
            }
            i = i + 1;
        }
        Err(MerklePathError::NotMarked(position))
    }
}

/// Errors of building a Sapling tree from a raw, unsanitised slice.
#[derive(Debug, Clone, Copy, PartialEq, Eq, Structural)]
pub enum MerkleTreeError {
    /// The nullifiers are not sorted in ascending byte order.
    NotSorted,
    /// Too many nullifiers for a tree of fewer than 2^32 leaves.
    LeavesOverflow(usize),
}

/// Each nullifier is at most its successor in byte order: sorted, repeats
/// allowed.
pub open spec fn byte_sorted(s: Seq<Nullifier>) -> bool {
    forall|i: int| 0 <= i < s.len() - 1 ==> crate::order::nf_le(Pool::Sapling, #[trigger] s[i]@, s[i + 1]@)
}

/// Builds the Sapling gap tree over nullifiers that the caller has sorted:
/// no tree for an empty slice, `NotSorted` for a slice with a descent.
/// Repeated neighbours are skipped, so the tree is the one over the
/// deduplicated sequence.
pub fn build_merkle_tree(nullifiers: &[Nullifier]) -> (r: Result<Option<DenseGapTree>, MerkleTreeError>)
    ensures
        nullifiers@.len() == 0 ==> r == Ok::<Option<DenseGapTree>, MerkleTreeError>(None),
        nullifiers@.len() > 0 && !byte_sorted(nullifiers@) ==> r == Err::<Option<DenseGapTree>, MerkleTreeError>(
            MerkleTreeError::NotSorted,
        ),
        r matches Err(e) ==> (e == MerkleTreeError::NotSorted && !byte_sorted(nullifiers@)) || (byte_sorted(nullifiers@)
            && e is LeavesOverflow),
        nullifiers@.len() > 0 && byte_sorted(nullifiers@) && leaf_count_ok(nullifiers@.len() + 1 as int) ==> r matches Ok(
            Some(_),
        ),
        r matches Ok(Some(t)) ==> t@.pool == Pool::Sapling && exists|d: Seq<Nullifier>|
            #[trigger] is_sanitised(Pool::Sapling, nullifiers@, d) && built_from(t@, gap_leaves(Pool::Sapling, d)),
{
    if nullifiers.len() == 0 {
        return Ok(None);
    }
    let last = nullifiers.len() - 1;
    let mut i: usize = 0;
    while i < last
        invariant
            0 <= i <= last,
            last == nullifiers@.len() - 1,
            forall|k: int| 0 <= k < i ==> crate::order::nf_le(Pool::Sapling, #[trigger] nullifiers@[k]@, nullifiers@[k + 1]@),
        decreases nullifiers@.len() - i,
    {
        let descent = match crate::order::nf_cmp(Pool::Sapling, &nullifiers[i], &nullifiers[i + 1]) {
            core::cmp::Ordering::Greater => true,
            _ => false,
        };
        if descent {
            proof {
                crate::order::lemma_lt_asymmetric(Pool::Sapling, nullifiers@[i + 1]@, nullifiers@[i as int]@);
                assert(!crate::order::nf_le(Pool::Sapling, nullifiers@[i as int]@, nullifiers@[i + 1]@));
            }
            return Err(MerkleTreeError::NotSorted);
        }
        i = i + 1;
    }
    proof {
        crate::order::lemma_adjacent_le(Pool::Sapling, nullifiers@);
    }
    let copied = crate::order::copy_nullifiers(nullifiers);
    let deduped = crate::nullifier_set::dedup_sorted(Pool::Sapling, &copied);
    proof {
        crate::nullifier_set::lemma_sanitised_len(Pool::Sapling, nullifiers@, deduped@);
        if deduped@.len() == 0 {
            assert(nullifiers@.contains(nullifiers@[0]));
            assert(deduped@.contains(nullifiers@[0]));
        }
    }
    if deduped.len() > usize::MAX - 1 {
        return Err(MerkleTreeError::LeavesOverflow(deduped.len()));
    }
    if validate_leaf_count(deduped.len() + 1).is_err() {
        return Err(MerkleTreeError::LeavesOverflow(deduped.len() + 1));
    }
    let leaves = gap_leaves_of(Pool::Sapling, deduped.as_slice());
    proof {
        assert(views(leaves@).len() == leaves@.len());
    }
    match DenseGapTree::from_leaves(Pool::Sapling, leaves) {
        Ok(t) => {
            assert(is_sanitised(Pool::Sapling, nullifiers@, deduped@) && built_from(t@, gap_leaves(Pool::Sapling, deduped@)));
            Ok(Some(t))
        },
        Err(_) => Err(MerkleTreeError::LeavesOverflow(deduped.len() + 1)),
    }
}

/// Determinism of the root: two inputs with the same elements give, once
/// canonicalised, trees with the same root.
pub proof fn lemma_root_depends_only_on_set(
    pool: Pool,
    xs: Seq<Nullifier>,
    ys: Seq<Nullifier>,
    a: Seq<Nullifier>,
    b: Seq<Nullifier>,
)
    requires
        forall|x: Nullifier| xs.contains(x) <==> ys.contains(x),
        is_sanitised(pool, xs, a),
        is_sanitised(pool, ys, b),
    ensures
        tree_root(pool, gap_leaves(pool, a)) == tree_root(pool, gap_leaves(pool, b)),
{
    lemma_sanitise_deterministic(pool, xs, ys, a, b);
}

/// The root of a tree built over `leaves` is the root of the model.
pub proof fn lemma_built_root(v: GapTreeView, leaves: Seq<Seq<u8>>)
    requires
        built_from(v, leaves),
    ensures
        node_of(v, 32, 0) == tree_root(v.pool, leaves),
{
    lemma_witness_recomputes_root(v, leaves, 0);
}

/// Determinism of the root for built trees: two trees of one pool, built
/// over the gaps of canonical forms of inputs with the same elements, have
/// the same root. Marking user gaps never changes it, and a pool's root
/// does not depend on the other pool's input.
pub proof fn lemma_tree_root_depends_only_on_set(
    pool: Pool,
    xs: Seq<Nullifier>,
    ys: Seq<Nullifier>,
    a: Seq<Nullifier>,
    b: Seq<Nullifier>,
    v: GapTreeView,
    w: GapTreeView,
)
    requires
        forall|x: Nullifier| xs.contains(x) <==> ys.contains(x),
        is_sanitised(pool, xs, a),
        is_sanitised(pool, ys, b),
        v.pool == pool,
        w.pool == pool,
        built_from(v, gap_leaves(pool, a)),
        built_from(w, gap_leaves(pool, b)),
    ensures
        node_of(v, 32, 0) == node_of(w, 32, 0),
        v.leaf_count == w.leaf_count,
{
    lemma_sanitise_deterministic(pool, xs, ys, a, b);
    lemma_built_root(v, gap_leaves(pool, a));
    lemma_built_root(w, gap_leaves(pool, b));
}

/// The trees that `build_merkle_tree` returns for two sorted slices with the
/// same elements, repeats aside, have the same root and leaf count.
pub proof fn lemma_build_merkle_tree_root(xs: Seq<Nullifier>, ys: Seq<Nullifier>, v: GapTreeView, w: GapTreeView)
    requires
        forall|x: Nullifier| xs.contains(x) <==> ys.contains(x),
        v.pool == Pool::Sapling,
        w.pool == Pool::Sapling,
        exists|d: Seq<Nullifier>| #[trigger] is_sanitised(Pool::Sapling, xs, d) && built_from(v, gap_leaves(Pool::Sapling, d)),
        exists|e: Seq<Nullifier>| #[trigger] is_sanitised(Pool::Sapling, ys, e) && built_from(w, gap_leaves(Pool::Sapling, e)),
    ensures
        node_of(v, 32, 0) == node_of(w, 32, 0),
        v.leaf_count == w.leaf_count,
{
    let d = choose|d: Seq<Nullifier>| #[trigger] is_sanitised(Pool::Sapling, xs, d) && built_from(v, gap_leaves(Pool::Sapling, d));
    let e = choose|e: Seq<Nullifier>| #[trigger] is_sanitised(Pool::Sapling, ys, e) && built_from(w, gap_leaves(Pool::Sapling, e));
    lemma_tree_root_depends_only_on_set(Pool::Sapling, xs, ys, d, e, v, w);
}

/// Gap count: the tree over a canonical chain has one leaf per gap, one
/// more than the chain has elements.
pub proof fn lemma_gap_count(v: GapTreeView, pool: Pool, chain: Seq<Nullifier>)
    requires
        built_from(v, gap_leaves(pool, chain)),
    ensures
        v.leaf_count == chain.len() + 1,
{
}

/// Non-membership correctness: a user nullifier strictly inside the
/// sentinels and absent from the chain maps to exactly one position; its
/// gap brackets it strictly, and hashing its gap leaf up with the witness of
/// that position gives the root of the tree over the chain.
pub proof fn lemma_non_membership_witness(
    v: GapTreeView,
    pool: Pool,
    chain: Seq<Nullifier>,
    u: Nullifier,
    r: Seq<TreePosition>,
)
    requires
        v.pool == pool,
        built_from(v, gap_leaves(pool, chain)),
        strictly_sorted(pool, chain),
        !chain.contains(u),
        nf_lt(pool, min_sentinel(), u@),
        nf_lt(pool, u@, max_sentinel(pool)),
        maps_users(pool, chain, seq![u], r),
    ensures
        r.len() == 1,
        r[0].nullifier == u,
        nf_lt(pool, r[0].left_bound@, u@),
        nf_lt(pool, u@, r[0].right_bound@),
        fold_path(
            pool,
            leaf_hash(pool, r[0].left_bound@, r[0].right_bound@),
            r[0].leaf_position as nat,
            witness_of(v, r[0].leaf_position as nat),
            32,
        ) == node_of(v, 32, 0),
        node_of(v, 32, 0) == tree_root(pool, gap_leaves(pool, chain)),
{
    lemma_non_member_maps_once(pool, chain, u, r);
    let p = r[0].leaf_position as int;
    if p > 0 {
        assert(nf_lt(pool, chain[p - 1]@, u@));
    }
    if p < chain.len() {
        assert(nf_lt(pool, u@, chain[p]@));
    }
    let leaves = gap_leaves(pool, chain);
    assert(leaves[p] == leaf_hash(pool, r[0].left_bound@, r[0].right_bound@));
    lemma_witness_recomputes_root(v, leaves, p as nat);
}

} // verus!
