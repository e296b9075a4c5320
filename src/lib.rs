//! Gap-tree non-membership proofs over shielded-pool nullifiers.
//!
//! Chain nullifiers are canonicalised per pool, a Merkle tree of depth 32 is
//! built over the gaps between neighbours, and a user's nullifiers are
//! located in their gaps with a witness that the gap is committed to.

pub mod claim;
pub mod cli;
pub mod codec;
pub mod config;
pub mod gap_tree;
pub mod hash;
pub mod hex_codec;
pub mod mapping;
pub mod nullifier_set;
pub mod order;
pub mod pallas;
pub mod pipeline;
pub mod source;
pub mod tree;
pub mod user_nullifiers;
