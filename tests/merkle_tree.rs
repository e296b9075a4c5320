use rs_merkle::Hasher;
use zair_gaptree::gap_tree::DenseGapTree;
use zair_gaptree::hash::build_leaf;
use zair_gaptree::mapping::MerklePathError;
use zair_gaptree::order::{Nullifier, Pool, NULLIFIER_SIZE};
use zair_gaptree::tree::{build_merkle_tree, MerkleTreeError, NonMembershipTree};
use zair_gaptree::nullifier_set::SanitisedNullifierSet;

const MIN_NF: Nullifier = [0_u8; 32];
const MAX_NF: Nullifier = [0xFF_u8; 32];

fn nf(v: u8) -> Nullifier {
    let mut arr = [0_u8; 32];
    arr[31] = v;
    arr
}

fn nfs(vs: &[u8]) -> Vec<Nullifier> {
    let mut v: Vec<Nullifier> = vs.iter().map(|x| nf(*x)).collect();
    v.sort();
    v
}

fn sha256(data: &[u8]) -> [u8; 32] {
    rs_merkle::algorithms::Sha256::hash(data)
}

fn sha256_pair(left: &[u8; 32], right: &[u8; 32]) -> [u8; 32] {
    sha256(&build_leaf(left, right))
}

#[test]
fn build_leaf_test() {
    let nf1: Nullifier = [1_u8; NULLIFIER_SIZE];
    let nf2: Nullifier = [2_u8; NULLIFIER_SIZE];

    let leaf = build_leaf(&nf1, &nf2);

    assert_eq!(&leaf[..NULLIFIER_SIZE], &nf1);
    assert_eq!(&leaf[NULLIFIER_SIZE..], &nf2);
}

#[test]
fn build_merkle_tree_empty() {
    let nullifiers: Vec<Nullifier> = vec![];
    let tree = build_merkle_tree(&nullifiers).expect("Failed to build Merkle tree");

    assert!(tree.is_none());
}

#[test]
fn build_merkle_tree_unsorted_error() {
    let nullifiers = vec![nf(0x3), nf(0x1), nf(0x2)];
    let result = build_merkle_tree(&nullifiers);

    assert!(matches!(result, Err(MerkleTreeError::NotSorted)));
}

#[test]
fn build_merkle_tree_sorted() {
    let nullifiers = nfs(&[0x1, 0x2, 0x3]);
    let tree = build_merkle_tree(&nullifiers)
        .expect("Failed to build Merkle tree")
        .expect("leaves exist");

    assert_eq!(tree.leaf_count(), 4);

    let expected_leaves: Vec<[u8; 32]> = [
        (MIN_NF, nullifiers[0]),
        (nullifiers[0], nullifiers[1]),
        (nullifiers[1], nullifiers[2]),
        (nullifiers[2], MAX_NF),
    ]
    .iter()
    .map(|(l, r)| sha256_pair(l, r))
    .collect();

    for (i, expected) in expected_leaves.iter().enumerate() {
        assert_eq!(tree.node_at(0, i), *expected, "Leaf {i} mismatch");
    }
}

#[test]
fn build_merkle_tree_single_nullifier() {
    let nullifiers = vec![nf(0x42)];
    let tree = build_merkle_tree(&nullifiers)
        .expect("Failed to build Merkle tree")
        .expect("leaves exist");

    assert_eq!(tree.leaf_count(), 2);

    let expected_front = sha256_pair(&MIN_NF, &nullifiers[0]);
    let expected_back = sha256_pair(&nullifiers[0], &MAX_NF);

    assert_eq!(tree.node_at(0, 0), expected_front);
    assert_eq!(tree.node_at(0, 1), expected_back);
}

/// The empty root of each level, as the tree defines it for Sapling.
fn sapling_empty_roots() -> Vec<[u8; 32]> {
    let mut roots = vec![sha256_pair(&MIN_NF, &MIN_NF)];
    for level in 0..32 {
        let e = roots[level];
        roots.push(sha256_pair(&e, &e));
    }
    roots
}

/// Hashes a leaf up with its witness.
fn recompute_sapling_root(leaf: [u8; 32], position: u64, witness: &[[u8; 32]]) -> [u8; 32] {
    let mut cur = leaf;
    for (level, sibling) in witness.iter().enumerate() {
        if (position >> level) & 1 == 0 {
            cur = sha256_pair(&cur, sibling);
        } else {
            cur = sha256_pair(sibling, &cur);
        }
    }
    cur
}

#[test]
fn sapling_root_by_hand() {
    let chain = nfs(&[1, 2, 3]);
    let tree = build_merkle_tree(&chain).unwrap().unwrap();
    let leaves = [
        sha256_pair(&MIN_NF, &chain[0]),
        sha256_pair(&chain[0], &chain[1]),
        sha256_pair(&chain[1], &chain[2]),
        sha256_pair(&chain[2], &MAX_NF),
    ];
    let empty = sapling_empty_roots();
    let mut level = vec![sha256_pair(&leaves[0], &leaves[1]), sha256_pair(&leaves[2], &leaves[3])];
    level = vec![sha256_pair(&level[0], &level[1])];
    let mut cur = level[0];
    for l in 2..32 {
        cur = sha256_pair(&cur, &empty[l]);
    }
    assert_eq!(tree.root_bytes(), cur);
}

#[test]
fn changing_a_nullifier_changes_the_root() {
    let a = build_merkle_tree(&nfs(&[1, 2, 3])).unwrap().unwrap();
    let b = build_merkle_tree(&nfs(&[1, 2, 4])).unwrap().unwrap();
    assert_ne!(a.root_bytes(), b.root_bytes());
    let again = build_merkle_tree(&nfs(&[1, 2, 3])).unwrap().unwrap();
    assert_eq!(a.root_bytes(), again.root_bytes());
}

#[test]
fn unsorted_input_is_accepted_through_sanitise() {
    let raw = vec![nf(3), nf(1), nf(2)];
    assert!(matches!(build_merkle_tree(&raw), Err(MerkleTreeError::NotSorted)));
    let set = SanitisedNullifierSet::new(raw, Pool::Sapling);
    assert_eq!(set.as_slice(), &nfs(&[1, 2, 3])[..]);
    let tree = build_merkle_tree(set.as_slice()).unwrap().unwrap();
    assert_eq!(tree.leaf_count(), 4);
}

#[test]
fn dense_witness_recomputes_root_at_every_position() {
    let chain = nfs(&[5, 9, 17, 33, 65]);
    let tree = build_merkle_tree(&chain).unwrap().unwrap();
    for p in 0..tree.leaf_count() {
        let witness = tree.witness_bytes(p as u64).expect("position in range");
        assert_eq!(witness.len(), 32);
        let leaf = tree.node_at(0, p);
        assert_eq!(recompute_sapling_root(leaf, p as u64, &witness), tree.root_bytes());
    }
    assert!(tree.witness_bytes(tree.leaf_count() as u64).is_err());
}

#[test]
fn leaf_count_is_one_more_than_the_set() {
    let set = SanitisedNullifierSet::new(vec![nf(7), nf(3), nf(7), nf(1)], Pool::Sapling);
    let tree = NonMembershipTree::from_nullifiers(&set).unwrap();
    assert_eq!(tree.leaf_count(), set.len() + 1);
    assert_eq!(tree.leaf_count(), 4);
}

#[test]
fn root_depends_only_on_the_set() {
    let a = SanitisedNullifierSet::new(vec![nf(9), nf(2), nf(5)], Pool::Sapling);
    let b = SanitisedNullifierSet::new(vec![nf(5), nf(5), nf(2), nf(9), nf(2)], Pool::Sapling);
    let ta = NonMembershipTree::from_nullifiers(&a).unwrap();
    let tb = NonMembershipTree::from_nullifiers(&b).unwrap();
    assert_eq!(ta.root_bytes(), tb.root_bytes());
}

#[test]
fn dense_tree_bytes_round_trip() {
    let tree = build_merkle_tree(&nfs(&[1, 2, 3, 4, 5])).unwrap().unwrap();
    let bytes = tree.to_bytes();
    let nodes = 6 + 3 + 2 + 1 + 29;
    assert_eq!(bytes.len(), 8 + nodes * 32);
    assert_eq!(&bytes[..8], &6u64.to_le_bytes());
    let back = DenseGapTree::from_bytes(Pool::Sapling, &bytes).unwrap();
    assert_eq!(back.leaf_count(), tree.leaf_count());
    assert_eq!(back.root_bytes(), tree.root_bytes());
    assert_eq!(back.to_bytes(), bytes);
}

#[test]
fn dense_tree_bytes_rejected() {
    let tree = build_merkle_tree(&nfs(&[1, 2])).unwrap().unwrap();
    let mut bytes = tree.to_bytes();
    bytes.pop();
    assert!(matches!(
        DenseGapTree::from_bytes(Pool::Sapling, &bytes),
        Err(MerklePathError::Unexpected("gap-tree file length mismatch"))
    ));
    assert!(matches!(
        DenseGapTree::from_bytes(Pool::Sapling, &[1, 2, 3]),
        Err(MerklePathError::Unexpected("gap-tree file is too short"))
    ));
    assert!(matches!(
        DenseGapTree::from_bytes(Pool::Sapling, &[0u8; 8]),
        Err(MerklePathError::Unexpected("gap-tree leaf count must be greater than zero"))
    ));
    let mut huge = vec![0u8; 8];
    huge[4] = 1;
    assert!(matches!(
        DenseGapTree::from_bytes(Pool::Sapling, &huge),
        Err(MerklePathError::LeavesOverflow(0x1_0000_0000))
    ));
}

#[test]
fn from_leaves_rejects_no_leaves() {
    assert!(matches!(
        DenseGapTree::from_leaves(Pool::Sapling, vec![]),
        Err(MerklePathError::Unexpected("gap-tree leaf count must be greater than zero"))
    ));
}

#[test]
fn build_merkle_tree_repeated_nullifier_is_skipped() {
    let repeated = vec![nf(1), nf(2), nf(2), nf(3)];
    let tree = build_merkle_tree(&repeated).unwrap().unwrap();
    let plain = build_merkle_tree(&nfs(&[1, 2, 3])).unwrap().unwrap();
    assert_eq!(tree.leaf_count(), 4);
    assert_eq!(tree.root_bytes(), plain.root_bytes());
    assert!(matches!(build_merkle_tree(&[nf(2), nf(2), nf(1)]), Err(MerkleTreeError::NotSorted)));
}
