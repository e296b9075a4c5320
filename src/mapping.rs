//! Gap bounds, Orchard canonical checks, and mapping user nullifiers to gaps.
use vstd::prelude::*;

use crate::nullifier_set::{binary_search_sorted, gap_index_of, is_sanitised, sanitise, SanitisedNullifierSet};
use crate::order::{nf_cmp, nf_lt, strictly_sorted, Nullifier, Pool};
use crate::pallas::{is_canonical_orchard, orchard_max_nullifier, orchard_node_from_bytes, pallas_max};

verus! {

/// Errors of the non-membership tree and of user mapping.
#[derive(Debug, PartialEq, Eq)]
pub enum MerklePathError {
    /// The position cannot be witnessed: it is not marked, or out of range.
    NotMarked(u64),
    /// The tree supports fewer than 2^32 leaves.
    LeavesOverflow(usize),
    /// Orchard nullifier bytes are not a canonical `pallas::Base` encoding.
    NonCanonicalOrchardNullifier {
        /// The set being parsed (`chain` or `user`).
        set: &'static str,
        /// Index in that set.
        index: usize,
    },
    /// A nullifier set of one pool was handed to the other pool's pipeline.
    PoolMismatch {
        /// The pool that the pipeline serves.
        expected: Pool,
        /// The pool of the set that was given.
        actual: Pool,
    },
    /// Unexpected error.
    Unexpected(&'static str),
}

/// A user nullifier located in its gap.
#[derive(Debug, Clone, Copy, PartialEq, Eq)]
pub struct TreePosition {
    /// The nullifier.
    pub nullifier: Nullifier,
    /// The leaf position (gap index) in the tree.
    pub leaf_position: u64,
    /// The left bound of the gap.
    pub left_bound: Nullifier,
    /// The right bound of the gap.
    pub right_bound: Nullifier,
}

impl TreePosition {
    /// Create a new `TreePosition`.
    pub fn new(nullifier: Nullifier, leaf_position: usize, left_bound: Nullifier, right_bound: Nullifier) -> (r:
        Result<Self, MerklePathError>)
        ensures
            r == Ok::<TreePosition, MerklePathError>(
                (TreePosition { nullifier, leaf_position: leaf_position as u64, left_bound, right_bound }),
            ),
    {
        Ok(TreePosition { nullifier, leaf_position: leaf_position as u64, left_bound, right_bound })
    }
}

/// The all-zero nullifier, lower sentinel of both pools.
pub open spec fn min_sentinel() -> Seq<u8> {
    Seq::new(32, |i: int| 0u8)
}

/// The upper sentinel of a pool.
pub open spec fn max_sentinel(pool: Pool) -> Seq<u8> {
    match pool {
        Pool::Sapling => Seq::new(32, |i: int| 0xffu8),
        Pool::Orchard => pallas_max(),
    }
}

/// Left bound of gap `i` of the sorted chain `s`.
pub open spec fn gap_left(s: Seq<Nullifier>, i: int) -> Seq<u8> {
    if i == 0 {
        min_sentinel()
    } else {
        s[i - 1]@
    }
}

/// Right bound of gap `i` of the sorted chain `s`.
pub open spec fn gap_right(pool: Pool, s: Seq<Nullifier>, i: int) -> Seq<u8> {
    if i == s.len() {
        max_sentinel(pool)
    } else {
        s[i]@
    }
}

/// `tp` locates `u` in its gap of `chain`.
pub open spec fn is_position(pool: Pool, chain: Seq<Nullifier>, u: Nullifier, tp: TreePosition) -> bool {
    &&& tp.nullifier == u
    &&& gap_index_of(pool, chain, u, tp.leaf_position as int)
    &&& tp.left_bound@ == gap_left(chain, tp.leaf_position as int)
    &&& tp.right_bound@ == gap_right(pool, chain, tp.leaf_position as int)
}

/// `u` lies strictly between the pool's two sentinels.
pub open spec fn inside_sentinels(pool: Pool, u: Nullifier) -> bool {
    nf_lt(pool, min_sentinel(), u@) && nf_lt(pool, u@, max_sentinel(pool))
}

/// Every position of `r` strictly brackets its nullifier.
pub open spec fn all_strict(pool: Pool, r: Seq<TreePosition>) -> bool {
    forall|k: int|
        0 <= k < r.len() ==> nf_lt(pool, (#[trigger] r[k]).left_bound@, r[k].nullifier@) && nf_lt(
            pool,
            r[k].nullifier@,
            r[k].right_bound@,
        )
}

/// `r` holds, in the order of `user`, one position for each user nullifier
/// that `chain` does not contain and that lies strictly between the
/// sentinels, and nothing else.
pub open spec fn maps_users(pool: Pool, chain: Seq<Nullifier>, user: Seq<Nullifier>, r: Seq<TreePosition>) -> bool
    decreases user.len(),
{
    if user.len() == 0 {
        r.len() == 0
    } else if chain.contains(user.last()) || !inside_sentinels(pool, user.last()) {
        maps_users(pool, chain, user.drop_last(), r)
    } else {
        &&& r.len() > 0
        &&& is_position(pool, chain, user.last(), r.last())
        &&& maps_users(pool, chain, user.drop_last(), r.drop_last())
    }
}

/// The lower sentinel as bytes.
pub fn min_nullifier() -> (r: Nullifier)
    ensures
        r@ == min_sentinel(),
{
    let r = [0u8; 32];
    assert(r@ =~= min_sentinel());
    r
}

/// The upper sentinel of `pool` as bytes.
pub fn max_nullifier(pool: Pool) -> (r: Nullifier)
    ensures
        r@ == max_sentinel(pool),
{
    match pool {
        Pool::Sapling => {
            let r = [0xffu8; 32];
            assert(r@ =~= max_sentinel(pool));
            r
        },
        Pool::Orchard => orchard_max_nullifier(),
    }
}

/// The bounds of gap `gap_idx` of a sorted chain under `pool`.
pub fn gap_bounds(pool: Pool, nullifiers: &[Nullifier], gap_idx: usize) -> (r: (Nullifier, Nullifier))
    requires
        gap_idx <= nullifiers@.len(),
    ensures
        r.0@ == gap_left(nullifiers@, gap_idx as int),
        r.1@ == gap_right(pool, nullifiers@, gap_idx as int),
{
    let left = if gap_idx == 0 {
        min_nullifier()
    } else {
        nullifiers[gap_idx - 1]
    };
    let right = if gap_idx == nullifiers.len() {
        max_nullifier(pool)
    } else {
        nullifiers[gap_idx]
    };
    (left, right)
}

/// The Sapling bounds of gap `gap_idx`: `MIN` before the first nullifier,
/// `0xFF..FF` after the last.
pub fn sapling_gap_bounds(nullifiers: &[Nullifier], gap_idx: usize) -> (r: (Nullifier, Nullifier))
    requires
        gap_idx <= nullifiers@.len(),
    ensures
        r.0@ == gap_left(nullifiers@, gap_idx as int),
        r.1@ == gap_right(Pool::Sapling, nullifiers@, gap_idx as int),
{
    gap_bounds(Pool::Sapling, nullifiers, gap_idx)
}

/// The two bounds of one Orchard gap.
#[derive(Debug, Clone, Copy, PartialEq, Eq)]
pub struct OrchardGap {
    /// Left bound.
    pub left_nf: Nullifier,
    /// Right bound.
    pub right_nf: Nullifier,
}

/// The Orchard bounds of gap `gap_idx`: `MIN` before the first nullifier,
/// `p - 1` after the last.
pub fn orchard_gap_bounds(chain: &[Nullifier], gap_idx: usize) -> (r: OrchardGap)
    requires
        gap_idx <= chain@.len(),
    ensures
        r.left_nf@ == gap_left(chain@, gap_idx as int),
        r.right_nf@ == gap_right(Pool::Orchard, chain@, gap_idx as int),
{
    let (left_nf, right_nf) = gap_bounds(Pool::Orchard, chain, gap_idx);
    OrchardGap { left_nf, right_nf }
}

/// Every element before `i` is a canonical Orchard encoding.
pub open spec fn canonical_prefix(s: Seq<Nullifier>, i: int) -> bool {
    forall|j: int| 0 <= j < i ==> is_canonical_orchard(#[trigger] s[j]@)
}

/// The error that canonical checking of `s` under the name `set` gives:
/// the first index whose bytes are not canonical.
pub open spec fn non_canonical_error(set: &'static str, s: Seq<Nullifier>, e: MerklePathError) -> bool {
    exists|i: int|
        0 <= i < s.len() && canonical_prefix(s, i) && !is_canonical_orchard(#[trigger] s[i]@) && e
            == (MerklePathError::NonCanonicalOrchardNullifier { set, index: i as usize })
}

/// Checks that each element is canonical, in order.
pub(crate) fn check_canonical(set: &'static str, nullifiers: &[Nullifier]) -> (r: Result<(), MerklePathError>)
    ensures
        r is Ok <==> canonical_prefix(nullifiers@, nullifiers@.len() as int),
        r matches Err(e) ==> non_canonical_error(set, nullifiers@, e),
{
    let mut index: usize = 0;
    while index < nullifiers.len()
        invariant
            0 <= index <= nullifiers@.len(),
            canonical_prefix(nullifiers@, index as int),
        decreases nullifiers@.len() - index,
    {
        if orchard_node_from_bytes(nullifiers[index]).is_none() {
            let e = MerklePathError::NonCanonicalOrchardNullifier { set, index };
            assert(!is_canonical_orchard(nullifiers@[index as int]@));
            assert(non_canonical_error(set, nullifiers@, e));
            return Err(e);
        }
        index = index + 1;
    }
    Ok(())
}

/// Checks that every chain nullifier is canonical, then sorts them under the
/// field order and drops duplicates.
pub fn canonicalize_orchard_chain_nullifiers(set: &'static str, nullifiers: &[Nullifier]) -> (r: Result<
    Vec<Nullifier>,
    MerklePathError,
>)
    ensures
        r is Ok <==> canonical_prefix(nullifiers@, nullifiers@.len() as int),
        r matches Ok(v) ==> is_sanitised(Pool::Orchard, nullifiers@, v@),
        r matches Err(e) ==> non_canonical_error(set, nullifiers@, e),
{
    check_canonical(set, nullifiers)?;
    Ok(sanitise(Pool::Orchard, crate::order::copy_nullifiers(nullifiers)))
}

/// Checks that every user nullifier is canonical, then sorts them under the
/// field order and drops duplicates.
pub fn canonicalize_orchard_user_nullifiers(set: &'static str, nullifiers: &[Nullifier]) -> (r: Result<
    Vec<Nullifier>,
    MerklePathError,
>)
    ensures
        r is Ok <==> canonical_prefix(nullifiers@, nullifiers@.len() as int),
        r matches Ok(v) ==> is_sanitised(Pool::Orchard, nullifiers@, v@),
        r matches Err(e) ==> non_canonical_error(set, nullifiers@, e),
{
    check_canonical(set, nullifiers)?;
    Ok(sanitise(Pool::Orchard, crate::order::copy_nullifiers(nullifiers)))
}

/// Compares two nullifiers as Pallas base-field elements.
pub fn orchard_cmp(lhs: &Nullifier, rhs: &Nullifier) -> (r: core::cmp::Ordering)
    ensures
        (r == core::cmp::Ordering::Less) <==> nf_lt(Pool::Orchard, lhs@, rhs@),
        (r == core::cmp::Ordering::Greater) <==> nf_lt(Pool::Orchard, rhs@, lhs@),
        (r == core::cmp::Ordering::Equal) <==> lhs@ == rhs@,
{
    crate::order::nf_cmp(Pool::Orchard, lhs, rhs)
}

/// For each user nullifier absent from the sorted chain, its gap and bounds.
pub fn map_positions(pool: Pool, chain: &[Nullifier], user: &[Nullifier]) -> (r: Vec<TreePosition>)
    requires
        strictly_sorted(pool, chain@),
    ensures
        maps_users(pool, chain@, user@, r@),
        all_strict(pool, r@),
{
    let min = min_nullifier();
    let max = max_nullifier(pool);
    let mut mapping: Vec<TreePosition> = Vec::new();
    let mut k: usize = 0;
    while k < user.len()
        invariant
            0 <= k <= user@.len(),
            strictly_sorted(pool, chain@),
            maps_users(pool, chain@, user@.take(k as int), mapping@),
            min@ == min_sentinel(),
            max@ == max_sentinel(pool),
        decreases user@.len() - k,
    {
        let u = user[k];
        let ghost before = mapping@;
        proof {
            assert(user@.take(k + 1).drop_last() =~= user@.take(k as int));
            assert(user@.take(k + 1).last() == u);
        }
        let above_min = match nf_cmp(pool, &min, &u) {
            core::cmp::Ordering::Less => true,
            _ => false,
        };
        let below_max = match nf_cmp(pool, &u, &max) {
            core::cmp::Ordering::Less => true,
            _ => false,
        };
        if !above_min || !below_max {
            k = k + 1;
            continue;
        }
        match binary_search_sorted(pool, chain, &u) {
            Ok(_) => {},
            Err(gap_idx) => {
                let (left, right) = gap_bounds(pool, chain, gap_idx);
                let tp = TreePosition { nullifier: u, leaf_position: gap_idx as u64, left_bound: left, right_bound: right };
                mapping.push(tp);
                proof {
                    assert(mapping@.drop_last() =~= before);
                }
            },
        }
        k = k + 1;
    }
    proof {
        assert(user@.take(user@.len() as int) =~= user@);
        lemma_maps_strict(pool, chain@, user@, mapping@);
    }
    mapping
}

/// Every position of a mapping strictly brackets its nullifier.
pub proof fn lemma_maps_strict(pool: Pool, chain: Seq<Nullifier>, user: Seq<Nullifier>, r: Seq<TreePosition>)
    requires
        maps_users(pool, chain, user, r),
    ensures
        all_strict(pool, r),
    decreases user.len(),
{
    if user.len() > 0 {
        let u = user.last();
        if chain.contains(u) || !inside_sentinels(pool, u) {
            lemma_maps_strict(pool, chain, user.drop_last(), r);
        } else {
            lemma_maps_strict(pool, chain, user.drop_last(), r.drop_last());
            let tp = r.last();
            let i = tp.leaf_position as int;
            if i > 0 {
                assert(nf_lt(pool, chain[i - 1]@, u@));
            }
            if i < chain.len() {
                assert(nf_lt(pool, u@, chain[i]@));
            }
            assert forall|k: int| 0 <= k < r.len() implies nf_lt(pool, (#[trigger] r[k]).left_bound@, r[k].nullifier@)
                && nf_lt(pool, r[k].nullifier@, r[k].right_bound@) by {
                if k < r.len() - 1 {
                    assert(r[k] == r.drop_last()[k]);
                }
            }
        }
    }
}

/// Maps Sapling user nullifiers to the gaps of the Sapling chain set.
pub fn map_sapling_user_positions(chain_nullifiers: &SanitisedNullifierSet, user_nullifiers: &SanitisedNullifierSet) -> (r:
    Result<Vec<TreePosition>, MerklePathError>)
    ensures
        chain_nullifiers.pool_spec() != Pool::Sapling ==> r == Err::<Vec<TreePosition>, MerklePathError>(
            MerklePathError::PoolMismatch { expected: Pool::Sapling, actual: chain_nullifiers.pool_spec() },
        ),
        chain_nullifiers.pool_spec() == Pool::Sapling && user_nullifiers.pool_spec() != Pool::Sapling ==> r == Err::<
            Vec<TreePosition>,
            MerklePathError,
        >(MerklePathError::PoolMismatch { expected: Pool::Sapling, actual: user_nullifiers.pool_spec() }),
        chain_nullifiers.pool_spec() == Pool::Sapling && user_nullifiers.pool_spec() == Pool::Sapling ==> (r matches Ok(
            v,
        ) && maps_users(Pool::Sapling, chain_nullifiers@, user_nullifiers@, v@)),
        r matches Ok(v) ==> all_strict(Pool::Sapling, v@),
{
    if chain_nullifiers.pool() != Pool::Sapling {
        return Err(MerklePathError::PoolMismatch { expected: Pool::Sapling, actual: chain_nullifiers.pool() });
    }
    if user_nullifiers.pool() != Pool::Sapling {
        return Err(MerklePathError::PoolMismatch { expected: Pool::Sapling, actual: user_nullifiers.pool() });
    }
    Ok(map_positions(Pool::Sapling, chain_nullifiers.as_slice(), user_nullifiers.as_slice()))
}

/// Maps Orchard user nullifiers to the gaps of the Orchard chain set, after
/// checking that both sets hold canonical field encodings.
pub fn map_orchard_user_positions(chain_nullifiers: &SanitisedNullifierSet, user_nullifiers: &SanitisedNullifierSet) -> (r:
    Result<Vec<TreePosition>, MerklePathError>)
    ensures
        chain_nullifiers.pool_spec() != Pool::Orchard ==> r == Err::<Vec<TreePosition>, MerklePathError>(
            MerklePathError::PoolMismatch { expected: Pool::Orchard, actual: chain_nullifiers.pool_spec() },
        ),
        chain_nullifiers.pool_spec() == Pool::Orchard && user_nullifiers.pool_spec() != Pool::Orchard ==> r == Err::<
            Vec<TreePosition>,
            MerklePathError,
        >(MerklePathError::PoolMismatch { expected: Pool::Orchard, actual: user_nullifiers.pool_spec() }),
        chain_nullifiers.pool_spec() == Pool::Orchard && user_nullifiers.pool_spec() == Pool::Orchard ==> {
            &&& !canonical_prefix(chain_nullifiers@, chain_nullifiers@.len() as int) ==> (r matches Err(e)
                && non_canonical_error("chain", chain_nullifiers@, e))
            &&& canonical_prefix(chain_nullifiers@, chain_nullifiers@.len() as int) && !canonical_prefix(
                user_nullifiers@,
                user_nullifiers@.len() as int,
            ) ==> (r matches Err(e) && non_canonical_error("user", user_nullifiers@, e))
            &&& canonical_prefix(chain_nullifiers@, chain_nullifiers@.len() as int) && canonical_prefix(
                user_nullifiers@,
                user_nullifiers@.len() as int,
            ) ==> (r matches Ok(v) && maps_users(Pool::Orchard, chain_nullifiers@, user_nullifiers@, v@))
        },
        r matches Ok(v) ==> all_strict(Pool::Orchard, v@),
{
    if chain_nullifiers.pool() != Pool::Orchard {
        return Err(MerklePathError::PoolMismatch { expected: Pool::Orchard, actual: chain_nullifiers.pool() });
    }
    if user_nullifiers.pool() != Pool::Orchard {
        return Err(MerklePathError::PoolMismatch { expected: Pool::Orchard, actual: user_nullifiers.pool() });
    }
    check_canonical("chain", chain_nullifiers.as_slice())?;
    check_canonical("user", user_nullifiers.as_slice())?;
    Ok(map_positions(Pool::Orchard, chain_nullifiers.as_slice(), user_nullifiers.as_slice()))
}

/// A user nullifier absent from the chain and strictly between the
/// sentinels maps to exactly one position, whose bounds bracket it strictly.
pub proof fn lemma_non_member_maps_once(pool: Pool, chain: Seq<Nullifier>, u: Nullifier, r: Seq<TreePosition>)
    requires
        strictly_sorted(pool, chain),
        !chain.contains(u),
        inside_sentinels(pool, u),
        maps_users(pool, chain, seq![u], r),
    ensures
        r.len() == 1,
        is_position(pool, chain, u, r[0]),
        r[0].leaf_position <= chain.len(),
        nf_lt(pool, r[0].left_bound@, u@),
        nf_lt(pool, u@, r[0].right_bound@),
{
    reveal_with_fuel(maps_users, 2);
    lemma_maps_strict(pool, chain, seq![u], r);
    assert(seq![u].drop_last() =~= Seq::<Nullifier>::empty());
    assert(seq![u].last() == u);
}

/// A user nullifier on or beyond a sentinel maps to nothing: no gap
/// brackets it strictly.
pub proof fn lemma_sentinel_rejected(pool: Pool, chain: Seq<Nullifier>, u: Nullifier, r: Seq<TreePosition>)
    requires
        !inside_sentinels(pool, u),
        maps_users(pool, chain, seq![u], r),
    ensures
        r.len() == 0,
{
    reveal_with_fuel(maps_users, 2);
    assert(seq![u].drop_last() =~= Seq::<Nullifier>::empty());
    assert(seq![u].last() == u);
}

/// A user nullifier already in the chain maps to nothing.
pub proof fn lemma_member_rejected(pool: Pool, chain: Seq<Nullifier>, u: Nullifier, r: Seq<TreePosition>)
    requires
        chain.contains(u),
        maps_users(pool, chain, seq![u], r),
    ensures
        r.len() == 0,
{
    reveal_with_fuel(maps_users, 2);
    assert(seq![u].drop_last() =~= Seq::<Nullifier>::empty());
    assert(seq![u].last() == u);
}

} // verus!
