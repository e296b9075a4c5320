//! Claim preparation: checking reconstructed roots against the sealed
//! configuration, and assembling one non-membership proof per user note.
use vstd::prelude::*;

use crate::codec::{pack_into, packed, views};
use crate::config::{AirdropConfiguration, SnapshotRange};
use crate::gap_tree::witness_of;
use crate::hex_codec::{encode_forward, hex_of};
use crate::mapping::TreePosition;
use crate::order::{nf_eq, Nullifier, Pool};
use crate::tree::{NonMembershipTree, NonMembershipTreeView};

verus! {

/// Public inputs of a non-membership proof.
#[derive(Debug, Clone, Copy, PartialEq, Eq)]
pub struct PublicInputs {
    /// The hiding nullifier.
    pub hiding_nullifier: Nullifier,
}

/// Private inputs of a Sapling non-membership proof.
#[derive(Debug, Clone, PartialEq, Eq)]
pub struct SaplingPrivateInputs {
    /// Nullifier proven absent from the snapshot.
    pub nullifier: Nullifier,
    /// Commitment of the unspent note.
    pub note_commitment: [u8; 32],
    /// Position of the note in the Sapling commitment tree.
    pub note_position: u64,
    /// Lower bound of the gap.
    pub left_nullifier: Nullifier,
    /// Upper bound of the gap.
    pub right_nullifier: Nullifier,
    /// Position of the gap leaf in the gap tree.
    pub leaf_position: u64,
    /// The 32 sibling hashes of the witness, concatenated.
    pub merkle_proof: Vec<u8>,
}

/// Private inputs of an Orchard non-membership proof.
#[derive(Debug, Clone, PartialEq, Eq)]
pub struct OrchardPrivateInputs {
    /// Nullifier proven absent from the snapshot.
    pub nullifier: Nullifier,
    /// Commitment of the unspent note.
    pub note_commitment: [u8; 32],
    /// Lower bound of the gap.
    pub left_nullifier: Nullifier,
    /// Upper bound of the gap.
    pub right_nullifier: Nullifier,
    /// Position of the gap leaf in the gap tree.
    pub leaf_position: u64,
    /// The 32 sibling hashes of the witness, concatenated.
    pub merkle_proof: Vec<u8>,
}

/// Private inputs, tagged by pool.
#[derive(Debug, Clone, PartialEq, Eq)]
pub enum PrivateInputs {
    /// Sapling pool private inputs.
    Sapling(SaplingPrivateInputs),
    /// Orchard pool private inputs.
    Orchard(OrchardPrivateInputs),
}

/// A non-membership proof of one note.
#[derive(Debug, Clone, PartialEq, Eq)]
pub struct NullifierProof {
    /// Height of the block where the note was created.
    pub block_height: u64,
    /// Public inputs.
    pub public_inputs: PublicInputs,
    /// Private inputs.
    pub private_inputs: PrivateInputs,
}

/// The proofs of a claim, with the roots they are against.
#[derive(Debug, Clone, PartialEq, Eq)]
pub struct UnspentNotesProofs {
    /// Root of the Sapling gap tree.
    pub sapling_merkle_root: [u8; 32],
    /// Root of the Orchard gap tree.
    pub orchard_merkle_root: [u8; 32],
    /// Sapling proofs.
    pub sapling: Vec<NullifierProof>,
    /// Orchard proofs.
    pub orchard: Vec<NullifierProof>,
}

impl UnspentNotesProofs {
    /// Creates the bundle from both roots and the proofs of each pool.
    pub fn new(
        sapling_merkle_root: [u8; 32],
        orchard_merkle_root: [u8; 32],
        sapling: Vec<NullifierProof>,
        orchard: Vec<NullifierProof>,
    ) -> (r: Self)
        ensures
            r.sapling_merkle_root == sapling_merkle_root,
            r.orchard_merkle_root == orchard_merkle_root,
            r.sapling@ == sapling@,
            r.orchard@ == orchard@,
    {
        UnspentNotesProofs { sapling_merkle_root, orchard_merkle_root, sapling, orchard }
    }
}

/// What is known of a Sapling note besides its nullifier.
#[derive(Debug, Clone, Copy, PartialEq, Eq)]
pub struct SaplingNoteMetadata {
    /// Hiding nullifier of the note.
    pub hiding_nullifier: Nullifier,
    /// Note commitment.
    pub note_commitment: [u8; 32],
    /// Position in the Sapling commitment tree.
    pub note_position: u64,
    /// Height of the block holding the note.
    pub block_height: u64,
}

/// What is known of an Orchard note besides its nullifier.
#[derive(Debug, Clone, Copy, PartialEq, Eq)]
pub struct OrchardNoteMetadata {
    /// Hiding nullifier of the note.
    pub hiding_nullifier: Nullifier,
    /// Note commitment.
    pub note_commitment: [u8; 32],
    /// Height of the block holding the note.
    pub block_height: u64,
}

/// Note metadata of either pool.
#[derive(Debug, Clone, Copy, PartialEq, Eq)]
pub enum NoteMetadata {
    /// A Sapling note.
    Sapling(SaplingNoteMetadata),
    /// An Orchard note.
    Orchard(OrchardNoteMetadata),
}

/// A user note: its on-chain nullifier and its metadata.
#[derive(Debug, Clone, Copy, PartialEq, Eq)]
pub struct UserNote {
    /// On-chain nullifier.
    pub nullifier: Nullifier,
    /// Metadata.
    pub metadata: NoteMetadata,
}

/// Errors of claim preparation.
#[derive(Debug, Clone, Copy, PartialEq, Eq, Structural)]
pub enum ClaimError {
    /// A reconstructed root differs from the configuration's.
    RootMismatch {
        /// The pool whose root differs.
        pool: Pool,
    },
    /// The birthday height lies after the end of the snapshot.
    BirthdayAfterSnapshot,
}

/// The pool of a note.
pub open spec fn note_pool(m: NoteMetadata) -> Pool {
    match m {
        NoteMetadata::Sapling(_) => Pool::Sapling,
        NoteMetadata::Orchard(_) => Pool::Orchard,
    }
}

/// The nullifiers of the notes of `pool`, in order.
pub open spec fn pool_nullifiers(notes: Seq<UserNote>, pool: Pool) -> Seq<Nullifier>
    decreases notes.len(),
{
    if notes.len() == 0 {
        seq![]
    } else if note_pool(notes.last().metadata) == pool {
        pool_nullifiers(notes.drop_last(), pool).push(notes.last().nullifier)
    } else {
        pool_nullifiers(notes.drop_last(), pool)
    }
}

/// The nullifiers of the user's notes of one pool, in order.
pub fn user_nullifiers_of(notes: &[UserNote], pool: Pool) -> (r: Vec<Nullifier>)
    ensures
        r@ == pool_nullifiers(notes@, pool),
{
    let mut out: Vec<Nullifier> = Vec::new();
    let mut i: usize = 0;
    while i < notes.len()
        invariant
            0 <= i <= notes@.len(),
            out@ == pool_nullifiers(notes@.take(i as int), pool),
        decreases notes@.len() - i,
    {
        let note = notes[i];
        proof {
            assert(notes@.take(i + 1).drop_last() =~= notes@.take(i as int));
            assert(notes@.take(i + 1).last() == note);
        }
        let is_pool = match note.metadata {
            NoteMetadata::Sapling(_) => pool == Pool::Sapling,
            NoteMetadata::Orchard(_) => pool == Pool::Orchard,
        };
        if is_pool {
            out.push(note.nullifier);
        }
        i = i + 1;
    }
    assert(notes@.take(notes@.len() as int) =~= notes@);
    out
}

/// The birthday height must not lie after the snapshot.
pub fn check_birthday(birthday_height: u64, snapshot: SnapshotRange) -> (r: Result<(), ClaimError>)
    ensures
        r is Ok <==> birthday_height <= snapshot.end,
        r is Err ==> r == Err::<(), ClaimError>(ClaimError::BirthdayAfterSnapshot),
{
    if birthday_height <= snapshot.end {
        Ok(())
    } else {
        Err(ClaimError::BirthdayAfterSnapshot)
    }
}

/// A recorded root agrees with a reconstructed one: both absent, or the
/// recorded string is the lower-case hex of the reconstructed bytes.
pub open spec fn root_matches(expected: Option<String>, actual: Option<[u8; 32]>) -> bool {
    match (expected, actual) {
        (None, None) => true,
        (Some(s), Some(a)) => s@ == hex_of(a@),
        _ => false,
    }
}

/// Compares one recorded root with a reconstructed one.
pub fn root_agrees(expected: &Option<String>, actual: &Option<[u8; 32]>) -> (r: bool)
    ensures
        r == root_matches(*expected, *actual),
{
    match expected {
        None => actual.is_none(),
        Some(s) => match actual {
            None => false,
            Some(a) => {
                let h = encode_forward(a);
                s.eq(&h)
            },
        },
    }
}

/// Checks both reconstructed roots against the configuration, Sapling first.
pub fn verify_merkle_roots(
    airdrop_config: &AirdropConfiguration,
    sapling_root: &Option<[u8; 32]>,
    orchard_root: &Option<[u8; 32]>,
) -> (r: Result<(), ClaimError>)
    ensures
        !root_matches(airdrop_config.sapling_merkle_root, *sapling_root) ==> r == Err::<(), ClaimError>(
            ClaimError::RootMismatch { pool: Pool::Sapling },
        ),
        root_matches(airdrop_config.sapling_merkle_root, *sapling_root) && !root_matches(
            airdrop_config.orchard_merkle_root,
            *orchard_root,
        ) ==> r == Err::<(), ClaimError>(ClaimError::RootMismatch { pool: Pool::Orchard }),
        root_matches(airdrop_config.sapling_merkle_root, *sapling_root) && root_matches(
            airdrop_config.orchard_merkle_root,
            *orchard_root,
        ) ==> r is Ok,
{
    if !root_agrees(&airdrop_config.sapling_merkle_root, sapling_root) {
        return Err(ClaimError::RootMismatch { pool: Pool::Sapling });
    }
    if !root_agrees(&airdrop_config.orchard_merkle_root, orchard_root) {
        return Err(ClaimError::RootMismatch { pool: Pool::Orchard });
    }
    Ok(())
}

/// The metadata of the first note with nullifier `nf`.
pub open spec fn find_note(notes: Seq<UserNote>, nf: Nullifier) -> Option<NoteMetadata>
    decreases notes.len(),
{
    if notes.len() == 0 {
        None
    } else if notes[0].nullifier == nf {
        Some(notes[0].metadata)
    } else {
        find_note(notes.drop_first(), nf)
    }
}

/// Looks up the metadata of the first note with nullifier `nf`.
pub fn lookup_note(notes: &[UserNote], nf: &Nullifier) -> (r: Option<NoteMetadata>)
    ensures
        r == find_note(notes@, *nf),
{
    let mut i: usize = 0;
    assert(notes@.skip(0) =~= notes@);
    while i < notes.len()
        invariant
            0 <= i <= notes@.len(),
            find_note(notes@, *nf) == find_note(notes@.skip(i as int), *nf),
        decreases notes@.len() - i,
    {
        proof {
            assert(notes@.skip(i as int)[0] == notes@[i as int]);
            assert(notes@.skip(i as int).drop_first() =~= notes@.skip(i + 1));
        }
        if nf_eq(&notes[i].nullifier, nf) {
            proof {
                assert(notes@[i as int].nullifier =~= *nf);
            }
            return Some(notes[i].metadata);
        }
        proof {
            if notes@[i as int].nullifier == *nf {
                assert(notes@[i as int].nullifier@ == nf@);
            }
        }
        i = i + 1;
    }
    None
}

/// `proof` is the non-membership proof of position `tp` of the tree `v`,
/// with the note metadata `meta`.
pub open spec fn is_proof_for(v: NonMembershipTreeView, tp: TreePosition, meta: NoteMetadata, proof: NullifierProof) -> bool {
    let path = witness_of(v.tree, tp.leaf_position as nat);
    match meta {
        NoteMetadata::Sapling(m) => {
            &&& proof.block_height == m.block_height
            &&& proof.public_inputs.hiding_nullifier == m.hiding_nullifier
            &&& proof.private_inputs matches PrivateInputs::Sapling(p) && {
                &&& p.nullifier == tp.nullifier
                &&& p.note_commitment == m.note_commitment
                &&& p.note_position == m.note_position
                &&& p.left_nullifier == tp.left_bound
                &&& p.right_nullifier == tp.right_bound
                &&& p.leaf_position == tp.leaf_position
                &&& packed(p.merkle_proof@, path)
            }
        },
        NoteMetadata::Orchard(m) => {
            &&& proof.block_height == m.block_height
            &&& proof.public_inputs.hiding_nullifier == m.hiding_nullifier
            &&& proof.private_inputs matches PrivateInputs::Orchard(p) && {
                &&& p.nullifier == tp.nullifier
                &&& p.note_commitment == m.note_commitment
                &&& p.left_nullifier == tp.left_bound
                &&& p.right_nullifier == tp.right_bound
                &&& p.leaf_position == tp.leaf_position
                &&& packed(p.merkle_proof@, path)
            }
        },
    }
}

/// A position yields a proof when its note is known and its leaf is
/// marked in the tree.
pub open spec fn provable(v: NonMembershipTreeView, notes: Seq<UserNote>, tp: TreePosition) -> bool {
    find_note(notes, tp.nullifier) is Some && v.marked.contains(tp.leaf_position) && tp.leaf_position < v.tree.leaf_count
}

/// `r` holds, in order, the proof of each provable position and nothing else.
pub open spec fn proofs_of(v: NonMembershipTreeView, positions: Seq<TreePosition>, notes: Seq<UserNote>, r: Seq<NullifierProof>) -> bool
    decreases positions.len(),
{
    if positions.len() == 0 {
        r.len() == 0
    } else if provable(v, notes, positions.last()) {
        &&& r.len() > 0
        &&& is_proof_for(v, positions.last(), find_note(notes, positions.last().nullifier)->Some_0, r.last())
        &&& proofs_of(v, positions.drop_last(), notes, r.drop_last())
    } else {
        proofs_of(v, positions.drop_last(), notes, r)
    }
}

/// One proof per mapped position whose note is known and whose gap can be
/// witnessed; other positions are skipped.
pub fn generate_user_proofs(tree: &NonMembershipTree, user_nullifiers: &[TreePosition], notes: &[UserNote]) -> (r: Vec<
    NullifierProof,
>)
    ensures
        proofs_of(tree@, user_nullifiers@, notes@, r@),
{
    let mut proofs: Vec<NullifierProof> = Vec::new();
    let mut i: usize = 0;
    while i < user_nullifiers.len()
        invariant
            0 <= i <= user_nullifiers@.len(),
            proofs_of(tree@, user_nullifiers@.take(i as int), notes@, proofs@),
        decreases user_nullifiers@.len() - i,
    {
        let tp = user_nullifiers[i];
        let ghost before = proofs@;
        proof {
            assert(user_nullifiers@.take(i + 1).drop_last() =~= user_nullifiers@.take(i as int));
            assert(user_nullifiers@.take(i + 1).last() == tp);
        }
        match lookup_note(notes, &tp.nullifier) {
            None => {},
            Some(metadata) => {
                match tree.witness_bytes(tp.leaf_position) {
                    Err(_) => {},
                    Ok(witness) => {
                        proof {
                            assert(views(witness@).len() == witness@.len());
                        }
                        let mut merkle_proof: Vec<u8> = Vec::new();
                        pack_into(witness.as_slice(), &mut merkle_proof);
                        proof {
                            assert(merkle_proof@.skip(0) =~= merkle_proof@);
                        }
                        let proof_item = match metadata {
                            NoteMetadata::Sapling(meta) => NullifierProof {
                                block_height: meta.block_height,
                                public_inputs: PublicInputs { hiding_nullifier: meta.hiding_nullifier },
                                private_inputs: PrivateInputs::Sapling(
                                    SaplingPrivateInputs {
                                        nullifier: tp.nullifier,
                                        note_commitment: meta.note_commitment,
                                        note_position: meta.note_position,
                                        left_nullifier: tp.left_bound,
                                        right_nullifier: tp.right_bound,
                                        leaf_position: tp.leaf_position,
                                        merkle_proof,
                                    },
                                ),
                            },
                            NoteMetadata::Orchard(meta) => NullifierProof {
                                block_height: meta.block_height,
                                public_inputs: PublicInputs { hiding_nullifier: meta.hiding_nullifier },
                                private_inputs: PrivateInputs::Orchard(
                                    OrchardPrivateInputs {
                                        nullifier: tp.nullifier,
                                        note_commitment: meta.note_commitment,
                                        left_nullifier: tp.left_bound,
                                        right_nullifier: tp.right_bound,
                                        leaf_position: tp.leaf_position,
                                        merkle_proof,
                                    },
                                ),
                            },
                        };
                        proofs.push(proof_item);
                        proof {
                            assert(proofs@.drop_last() =~= before);
                        }
                    },
                }
            },
        }
        i = i + 1;
    }
    proof {
        assert(user_nullifiers@.take(user_nullifiers@.len() as int) =~= user_nullifiers@);
    }
    proofs
}

} // verus!
