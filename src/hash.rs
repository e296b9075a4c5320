//! Leaf and internal-node hashes of the gap tree, per pool.
//!
//! Sapling hashes with SHA-256 over the concatenation of the two inputs, for
//! leaves and for internal nodes alike. Orchard uses `MerkleCRH^Orchard`
//! (Sinsemilla): internal nodes at their level, leaves at a level that no
//! internal node uses.
use vstd::prelude::*;

use crate::order::{Nullifier, Pool};
use crate::pallas::is_canonical_orchard;
use incrementalmerkletree::{Hashable, Level};
use orchard::tree::MerkleHashOrchard;
use rs_merkle::Hasher;

verus! {

/// The level at which Orchard hashes a gap leaf, apart from the internal levels `0..32`.
pub const ORCHARD_LEAF_HASH_LEVEL: u8 = 62;

/// The SHA-256 digest of `data`.
pub uninterp spec fn sha256_of(data: Seq<u8>) -> Seq<u8>;

/// `MerkleCRH^Orchard` at `level` of two canonical node encodings.
pub uninterp spec fn merkle_crh_orchard(level: u8, left: Seq<u8>, right: Seq<u8>) -> Seq<u8>;

/// Relies on rs_merkle's `Sha256` hasher: the SHA-256 digest of `data`.
#[verifier::external_body]
fn sha256(data: &[u8]) -> (r: [u8; 32])
    ensures
        r@ == sha256_of(data@),
{
    rs_merkle::algorithms::Sha256::hash(data)
}

/// Relies on orchard's `MerkleHashOrchard::from_bytes` (which accepts
/// canonical encodings), `Hashable::combine` at `level`, and `to_bytes`,
/// which encodes a field element canonically.
#[verifier::external_body]
fn orchard_combine(level: u8, left: &Nullifier, right: &Nullifier) -> (r: Nullifier)
    requires
        is_canonical_orchard(left@),
        is_canonical_orchard(right@),
    ensures
        r@ == merkle_crh_orchard(level, left@, right@),
        is_canonical_orchard(r@),
{
    let l = MerkleHashOrchard::from_bytes(left).unwrap();
    let r = MerkleHashOrchard::from_bytes(right).unwrap();
    MerkleHashOrchard::combine(Level::from(level), &l, &r).to_bytes()
}

/// What the pool's hashes accept: canonical field encodings for Orchard,
/// any bytes for Sapling.
pub open spec fn hash_input_ok(pool: Pool, a: Seq<u8>) -> bool {
    pool == Pool::Orchard ==> is_canonical_orchard(a)
}

/// Hash of the gap leaf `(left, right)`.
pub open spec fn leaf_hash(pool: Pool, left: Seq<u8>, right: Seq<u8>) -> Seq<u8> {
    match pool {
        Pool::Sapling => sha256_of(left + right),
        Pool::Orchard => merkle_crh_orchard(ORCHARD_LEAF_HASH_LEVEL, left, right),
    }
}

/// Hash of an internal node at `level` (0 just above the leaves).
pub open spec fn node_hash(pool: Pool, level: nat, left: Seq<u8>, right: Seq<u8>) -> Seq<u8> {
    match pool {
        Pool::Sapling => sha256_of(left + right),
        Pool::Orchard => merkle_crh_orchard(level as u8, left, right),
    }
}

/// Concatenates two nullifiers into the 64-byte preimage of a leaf.
pub fn build_leaf(nf1: &Nullifier, nf2: &Nullifier) -> (r: [u8; 64])
    ensures
        r@ == nf1@ + nf2@,
{
    let mut leaf = [0u8; 64];
    let mut i: usize = 0;
    while i < 32
        invariant
            0 <= i <= 32,
            leaf@.len() == 64,
            forall|j: int| 0 <= j < i ==> leaf@[j] == nf1@[j],
            forall|j: int| 0 <= j < i ==> leaf@[32 + j] == nf2@[j],
        decreases 32 - i,
    {
        leaf[i] = nf1[i];
        leaf[32 + i] = nf2[i];
        i = i + 1;
    }
    assert(leaf@ =~= nf1@ + nf2@);
    leaf
}

/// Hash of the gap leaf `(left, right)` under `pool`.
pub fn hash_leaf(pool: Pool, left: &Nullifier, right: &Nullifier) -> (r: Nullifier)
    requires
        hash_input_ok(pool, left@),
        hash_input_ok(pool, right@),
    ensures
        r@ == leaf_hash(pool, left@, right@),
        hash_input_ok(pool, r@),
{
    match pool {
        Pool::Sapling => {
            let preimage = build_leaf(left, right);
            sha256(preimage.as_slice())
        },
        Pool::Orchard => orchard_combine(ORCHARD_LEAF_HASH_LEVEL, left, right),
    }
}

/// Hash of an internal node at `level` under `pool`.
pub fn hash_node(pool: Pool, level: u8, left: &Nullifier, right: &Nullifier) -> (r: Nullifier)
    requires
        hash_input_ok(pool, left@),
        hash_input_ok(pool, right@),
    ensures
        r@ == node_hash(pool, level as nat, left@, right@),
        hash_input_ok(pool, r@),
{
    match pool {
        Pool::Sapling => {
            let preimage = build_leaf(left, right);
            sha256(preimage.as_slice())
        },
        Pool::Orchard => orchard_combine(level, left, right),
    }
}

} // verus!
