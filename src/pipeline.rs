//! The two pipelines that compose the library: sealing a snapshot into a
//! configuration, and preparing a user's claim against a sealed one.
use vstd::prelude::*;

use crate::claim::{check_birthday, generate_user_proofs, pool_nullifiers, proofs_of, root_matches, user_nullifiers_of, verify_merkle_roots, ClaimError, NullifierProof, UnspentNotesProofs, UserNote};
use crate::config::{AirdropConfiguration, HidingFactor, SnapshotRange};
use crate::gap_tree::{built_from, gap_leaves, leaf_count_ok, node_of};
use crate::hex_codec::{encode_forward, hex_of};
use crate::mapping::{canonical_prefix, maps_users, MerklePathError};
use crate::nullifier_set::{is_sanitised, lemma_sanitised_len, SanitisedNullifierSet};
use crate::order::{Nullifier, Pool};
use crate::pallas::is_canonical_orchard;
use crate::tree::{marks_mapping, NonMembershipTree, NonMembershipTreeView};

verus! {

/// Every element is a canonical Orchard encoding.
pub open spec fn all_canonical(xs: Seq<Nullifier>) -> bool {
    forall|i: int| 0 <= i < xs.len() ==> is_canonical_orchard(#[trigger] xs[i]@)
}

/// A sealed pool: its canonical set, its tree and the hex of its root.
pub struct PoolSnapshot {
    /// The canonical chain set, as the snapshot file stores it.
    pub set: SanitisedNullifierSet,
    /// The gap tree over the set.
    pub tree: NonMembershipTree,
    /// Lower-case hex of the root.
    pub root_hex: String,
}

proof fn lemma_canonical_set(xs: Seq<Nullifier>, s: Seq<Nullifier>)
    requires
        all_canonical(xs),
        forall|x: Nullifier| s.contains(x) <==> xs.contains(x),
    ensures
        canonical_prefix(s, s.len() as int),
{
    assert forall|j: int| 0 <= j < s.len() implies is_canonical_orchard(#[trigger] s[j]@) by {
        assert(s.contains(s[j]));
        let i = choose|i: int| 0 <= i < xs.len() && xs[i] == s[j];
    }
}

/// Seals one pool: no root for an empty snapshot; otherwise the canonical
/// set, the tree over its gaps and the hex of the root.
pub fn process_pool(pool: Pool, nullifiers: Vec<Nullifier>) -> (r: Result<Option<PoolSnapshot>, MerklePathError>)
    ensures
        nullifiers@.len() == 0 <==> r matches Ok(None),
        nullifiers@.len() > 0 && (pool == Pool::Orchard ==> all_canonical(nullifiers@)) && leaf_count_ok(
            nullifiers@.len() + 1 as int,
        ) ==> r matches Ok(Some(_)),
        r matches Ok(Some(p)) ==> {
            &&& p.set.pool_spec() == pool
            &&& is_sanitised(pool, nullifiers@, p.set@)
            &&& p.tree@.tree.pool == pool
            &&& built_from(p.tree@.tree, gap_leaves(pool, p.set@))
            &&& p.root_hex@ == hex_of(node_of(p.tree@.tree, 32, 0))
        },
        r matches Err(e) ==> nullifiers@.len() > 0 && (e is NonCanonicalOrchardNullifier || e is LeavesOverflow),
{
    let ghost xs = nullifiers@;
    let set = SanitisedNullifierSet::new(nullifiers, pool);
    proof {
        lemma_sanitised_len(pool, xs, set@);
        if xs.len() > 0 {
            assert(xs.contains(xs[0]));
            assert(set@.contains(xs[0]));
        }
        if pool == Pool::Orchard && all_canonical(xs) {
            lemma_canonical_set(xs, set@);
        }
    }
    if set.is_empty() {
        proof {
            if xs.len() > 0 {
                assert(set@.contains(xs[0]));
            }
        }
        return Ok(None);
    }
    if set.len() == usize::MAX {
        return Err(MerklePathError::LeavesOverflow(set.len()));
    }
    let tree = NonMembershipTree::from_nullifiers(&set)?;
    let root = tree.root_bytes();
    let root_hex = encode_forward(&root);
    Ok(Some(PoolSnapshot { set, tree, root_hex }))
}

/// The configuration sealed from both pools' chain nullifiers, with the
/// canonical snapshot of each pool that had any.
pub fn build_airdrop_configuration(
    snapshot_range: SnapshotRange,
    sapling_nullifiers: Vec<Nullifier>,
    orchard_nullifiers: Vec<Nullifier>,
    hiding_factor: HidingFactor,
) -> (r: Result<(AirdropConfiguration, Option<PoolSnapshot>, Option<PoolSnapshot>), MerklePathError>)
    ensures
        r matches Ok((config, sapling, orchard)) ==> {
            &&& config.snapshot_range == snapshot_range
            &&& config.hiding_factor == hiding_factor
            &&& (sapling_nullifiers@.len() == 0 <==> sapling is None)
            &&& (orchard_nullifiers@.len() == 0 <==> orchard is None)
            &&& sapling matches Some(p) ==> config.sapling_merkle_root == Some(p.root_hex) && p.set.pool_spec()
                == Pool::Sapling && p.tree@.tree.pool == Pool::Sapling && is_sanitised(Pool::Sapling, sapling_nullifiers@, p.set@) && built_from(
                p.tree@.tree,
                gap_leaves(Pool::Sapling, p.set@),
            ) && p.root_hex@ == hex_of(node_of(p.tree@.tree, 32, 0))
            &&& sapling is None ==> config.sapling_merkle_root is None
            &&& orchard matches Some(p) ==> config.orchard_merkle_root == Some(p.root_hex) && p.set.pool_spec()
                == Pool::Orchard && p.tree@.tree.pool == Pool::Orchard && is_sanitised(Pool::Orchard, orchard_nullifiers@, p.set@) && built_from(
                p.tree@.tree,
                gap_leaves(Pool::Orchard, p.set@),
            ) && p.root_hex@ == hex_of(node_of(p.tree@.tree, 32, 0))
            &&& orchard is None ==> config.orchard_merkle_root is None
        },
        sapling_nullifiers@.len() < 0x1_0000_0000 - 1 && orchard_nullifiers@.len() < 0x1_0000_0000 - 1 && leaf_count_ok(
            sapling_nullifiers@.len() + 1 as int,
        ) && leaf_count_ok(orchard_nullifiers@.len() + 1 as int) && all_canonical(orchard_nullifiers@) ==> r is Ok,
{
    let sapling = process_pool(Pool::Sapling, sapling_nullifiers)?;
    let orchard = process_pool(Pool::Orchard, orchard_nullifiers)?;
    let sapling_root = match &sapling {
        Some(p) => Some(p.root_hex.clone()),
        None => None,
    };
    let orchard_root = match &orchard {
        Some(p) => Some(p.root_hex.clone()),
        None => None,
    };
    let config = AirdropConfiguration::new(snapshot_range, sapling_root, orchard_root, hiding_factor);
    Ok((config, sapling, orchard))
}

/// Errors of claim preparation.
#[derive(Debug, PartialEq, Eq)]
pub enum PrepareError {
    /// A check of the claim failed.
    Claim(ClaimError),
    /// A tree could not be built.
    Tree(MerklePathError),
}

/// What one pool contributes to a claim.
pub struct PreparedPool {
    /// The tree over the chain set, with the user's gaps marked.
    pub tree: NonMembershipTree,
    /// The proofs of the user's notes of this pool.
    pub proofs: Vec<NullifierProof>,
}

/// `p` is the preparation of `pool` from the chain nullifiers `chain` and
/// the user's notes: the tree over the canonical chain with the user's gaps
/// marked, and one proof per provable position of the mapping.
pub open spec fn prepared(pool: Pool, chain: Seq<Nullifier>, notes: Seq<UserNote>, v: NonMembershipTreeView, proofs: Seq<
    NullifierProof,
>) -> bool {
    exists|c: Seq<Nullifier>, u: Seq<Nullifier>, m: Seq<crate::mapping::TreePosition>|
        {
            &&& is_sanitised(pool, chain, c)
            &&& is_sanitised(pool, pool_nullifiers(notes, pool), u)
            &&& v.tree.pool == pool
            &&& built_from(v.tree, gap_leaves(pool, c))
            &&& rebuilt(pool, chain, v)
            &&& #[trigger] maps_users(pool, c, u, m)
            &&& marks_mapping(v.marked, m)
            &&& proofs_of(v, m, notes, proofs)
        }
}

/// Prepares one pool of a claim.
pub fn prepare_pool(pool: Pool, chain: Vec<Nullifier>, notes: &[UserNote]) -> (r: Result<PreparedPool, MerklePathError>)
    ensures
        r matches Ok(p) ==> prepared(pool, chain@, notes@, p.tree@, p.proofs@),
        r matches Err(e) ==> e is LeavesOverflow || (pool == Pool::Orchard && e is NonCanonicalOrchardNullifier),
        chain@.len() < 0x1_0000_0000 - 1 && leaf_count_ok(chain@.len() + 1 as int) && (pool == Pool::Orchard ==> all_canonical(
            chain@,
        ) && all_canonical(pool_nullifiers(notes@, pool))) ==> r is Ok,
{
    let ghost xs = chain@;
    let user_nullifiers = user_nullifiers_of(notes, pool);
    let ghost us = user_nullifiers@;
    let chain_set = SanitisedNullifierSet::new(chain, pool);
    let user_set = SanitisedNullifierSet::new(user_nullifiers, pool);
    proof {
        lemma_sanitised_len(pool, xs, chain_set@);
        if pool == Pool::Orchard && all_canonical(xs) && all_canonical(us) {
            lemma_canonical_set(xs, chain_set@);
            lemma_canonical_set(us, user_set@);
        }
    }
    if chain_set.len() == usize::MAX {
        return Err(MerklePathError::LeavesOverflow(chain_set.len()));
    }
    let (tree, mapping) = NonMembershipTree::from_chain_and_user_nullifiers(&chain_set, &user_set)?;
    let proofs = generate_user_proofs(&tree, mapping.as_slice(), notes);
    proof {
        assert(maps_users(pool, chain_set@, user_set@, mapping@));
    }
    Ok(PreparedPool { tree, proofs })
}

/// `v` is the tree rebuilt for `pool` from the chain nullifiers `chain`.
pub open spec fn rebuilt(pool: Pool, chain: Seq<Nullifier>, v: NonMembershipTreeView) -> bool {
    exists|c: Seq<Nullifier>| #[trigger] is_sanitised(pool, chain, c) && v.tree.pool == pool && built_from(v.tree, gap_leaves(pool, c))
}

/// The recorded root of `pool` disagrees with the rebuilt one, or with its
/// absence when no chain nullifiers were given.
pub open spec fn root_disagrees(pool: Pool, recorded: Option<String>, chain: Option<Vec<Nullifier>>) -> bool {
    match chain {
        None => recorded is Some,
        Some(c) => exists|v: NonMembershipTreeView, a: [u8; 32]|
            #![trigger rebuilt(pool, c@, v), a@]
            rebuilt(pool, c@, v) && a@ == node_of(v.tree, 32, 0) && !root_matches(recorded, Some(a)),
    }
}

/// Prepares a claim: checks the birthday, rebuilds each pool whose chain
/// nullifiers are given, checks the rebuilt roots against the
/// configuration, and assembles the proofs. A pool without chain
/// nullifiers contributes an all-zero root and no proof.
pub fn prepare_claims(
    airdrop_config: &AirdropConfiguration,
    sapling_chain: Option<Vec<Nullifier>>,
    orchard_chain: Option<Vec<Nullifier>>,
    notes: &[UserNote],
    birthday_height: u64,
) -> (r: Result<UnspentNotesProofs, PrepareError>)
    ensures
        birthday_height > airdrop_config.snapshot_range.end ==> r == Err::<UnspentNotesProofs, PrepareError>(
            PrepareError::Claim(ClaimError::BirthdayAfterSnapshot),
        ),
        r matches Ok(u) ==> {
            &&& birthday_height <= airdrop_config.snapshot_range.end
            &&& sapling_chain is None ==> u.sapling_merkle_root@ == crate::mapping::min_sentinel() && u.sapling@.len() == 0
                && airdrop_config.sapling_merkle_root is None
            &&& sapling_chain matches Some(c) ==> exists|v: NonMembershipTreeView|
                prepared(Pool::Sapling, c@, notes@, v, u.sapling@) && #[trigger] node_of(v.tree, 32, 0)
                    == u.sapling_merkle_root@ && root_matches(airdrop_config.sapling_merkle_root, Some(u.sapling_merkle_root))
            &&& orchard_chain is None ==> u.orchard_merkle_root@ == crate::mapping::min_sentinel() && u.orchard@.len() == 0
                && airdrop_config.orchard_merkle_root is None
            &&& orchard_chain matches Some(c) ==> exists|v: NonMembershipTreeView|
                prepared(Pool::Orchard, c@, notes@, v, u.orchard@) && #[trigger] node_of(v.tree, 32, 0)
                    == u.orchard_merkle_root@ && root_matches(airdrop_config.orchard_merkle_root, Some(u.orchard_merkle_root))
        },
        birthday_height <= airdrop_config.snapshot_range.end && (sapling_chain matches Some(c) ==> c@.len() < 0x1_0000_0000
            - 1 && leaf_count_ok(c@.len() + 1 as int)) && (orchard_chain matches Some(c) ==> c@.len() < 0x1_0000_0000 - 1
            && leaf_count_ok(c@.len() + 1 as int) && all_canonical(c@) && all_canonical(pool_nullifiers(notes@, Pool::Orchard)))
            && !root_disagrees(Pool::Sapling, airdrop_config.sapling_merkle_root, sapling_chain) && !root_disagrees(
            Pool::Orchard,
            airdrop_config.orchard_merkle_root,
            orchard_chain,
        ) ==> r is Ok,
        r matches Err(PrepareError::Tree(e)) ==> birthday_height <= airdrop_config.snapshot_range.end && (e is LeavesOverflow
            || e is NonCanonicalOrchardNullifier),
        r matches Err(PrepareError::Claim(ClaimError::RootMismatch { pool })) ==> {
            &&& birthday_height <= airdrop_config.snapshot_range.end
            &&& pool == Pool::Sapling ==> root_disagrees(Pool::Sapling, airdrop_config.sapling_merkle_root, sapling_chain)
            &&& pool == Pool::Orchard ==> root_disagrees(Pool::Orchard, airdrop_config.orchard_merkle_root, orchard_chain)
        },
{
    let ghost sc = sapling_chain;
    let ghost oc = orchard_chain;
    match check_birthday(birthday_height, airdrop_config.snapshot_range) {
        Ok(()) => {},
        Err(e) => {
            return Err(PrepareError::Claim(e));
        },
    }
    let sapling = match sapling_chain {
        Some(c) => match prepare_pool(Pool::Sapling, c, notes) {
            Ok(p) => Some(p),
            Err(e) => {
                return Err(PrepareError::Tree(e));
            },
        },
        None => None,
    };
    let orchard = match orchard_chain {
        Some(c) => match prepare_pool(Pool::Orchard, c, notes) {
            Ok(p) => Some(p),
            Err(e) => {
                return Err(PrepareError::Tree(e));
            },
        },
        None => None,
    };
    let sapling_root: Option<[u8; 32]> = match &sapling {
        Some(p) => Some(p.tree.root_bytes()),
        None => None,
    };
    let orchard_root: Option<[u8; 32]> = match &orchard {
        Some(p) => Some(p.tree.root_bytes()),
        None => None,
    };
    proof {
        if sapling is Some && sc is Some {
            let v = sapling->Some_0.tree@;
            let a = sapling_root->Some_0;
            assert(rebuilt(Pool::Sapling, sc->Some_0@, v));
            assert(a@ == node_of(v.tree, 32, 0));
        }
        if orchard is Some && oc is Some {
            let v = orchard->Some_0.tree@;
            let a = orchard_root->Some_0;
            assert(rebuilt(Pool::Orchard, oc->Some_0@, v));
            assert(a@ == node_of(v.tree, 32, 0));
        }
    }
    match verify_merkle_roots(airdrop_config, &sapling_root, &orchard_root) {
        Ok(()) => {},
        Err(e) => {
            return Err(PrepareError::Claim(e));
        },
    }
    let (sapling_merkle_root, sapling_proofs) = match sapling {
        Some(p) => (p.tree.root_bytes(), p.proofs),
        None => (crate::mapping::min_nullifier(), Vec::new()),
    };
    let (orchard_merkle_root, orchard_proofs) = match orchard {
        Some(p) => (p.tree.root_bytes(), p.proofs),
        None => (crate::mapping::min_nullifier(), Vec::new()),
    };
    Ok(UnspentNotesProofs::new(sapling_merkle_root, orchard_merkle_root, sapling_proofs, orchard_proofs))
}

} // verus!
