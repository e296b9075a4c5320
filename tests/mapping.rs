use rs_merkle::Hasher;
use zair_gaptree::hash::build_leaf;
use zair_gaptree::mapping::{
    canonicalize_orchard_chain_nullifiers, map_orchard_user_positions, map_sapling_user_positions, orchard_cmp,
    orchard_gap_bounds, sapling_gap_bounds, MerklePathError,
};
use zair_gaptree::nullifier_set::SanitisedNullifierSet;
use zair_gaptree::order::{Nullifier, Pool};
use zair_gaptree::pallas::{orchard_max_nullifier, orchard_node_from_bytes};
use zair_gaptree::tree::NonMembershipTree;

fn nf(v: u8) -> Nullifier {
    let mut arr = [0_u8; 32];
    arr[31] = v;
    arr
}

fn orchard_nf(v: u64) -> Nullifier {
    let mut arr = [0_u8; 32];
    arr[..8].copy_from_slice(&v.to_le_bytes());
    arr
}

fn sha256_pair(left: &[u8; 32], right: &[u8; 32]) -> [u8; 32] {
    rs_merkle::algorithms::Sha256::hash(&build_leaf(left, right))
}

#[test]
fn rejects_non_canonical_orchard_nullifier() {
    let mut bytes = [0xff_u8; 32];
    bytes[31] = 0x7f;
    let invalid: Nullifier = bytes;

    let chain = SanitisedNullifierSet::new(vec![invalid], Pool::Orchard);
    let result = NonMembershipTree::from_nullifiers(&chain);
    assert!(matches!(
        result,
        Err(MerklePathError::NonCanonicalOrchardNullifier { set: "chain", index: 0 })
    ));
}

#[test]
fn orchard_ordering_is_field_ordering() {
    let chain = SanitisedNullifierSet::new(vec![orchard_nf(256)], Pool::Orchard);
    let user = SanitisedNullifierSet::new(vec![orchard_nf(1)], Pool::Orchard);

    let (_tree, mapping) =
        NonMembershipTree::from_chain_and_user_nullifiers(&chain, &user).expect("tree creation should succeed");

    assert_eq!(mapping.len(), 1);
    assert_eq!(mapping[0].leaf_position, 0_u64);
    assert_eq!(mapping[0].left_bound, [0u8; 32]);
    assert_eq!(mapping[0].right_bound, orchard_nf(256));
}

#[test]
fn byte_order_would_place_it_after() {
    let chain = SanitisedNullifierSet::new(vec![orchard_nf(256)], Pool::Sapling);
    let user = SanitisedNullifierSet::new(vec![orchard_nf(1)], Pool::Sapling);
    let mapping = map_sapling_user_positions(&chain, &user).unwrap();
    assert_eq!(mapping[0].leaf_position, 1);
    assert_eq!(mapping[0].left_bound, orchard_nf(256));
    assert_eq!(mapping[0].right_bound, [0xff; 32]);
}

#[test]
fn empty_sapling_snapshot_maps_to_gap_zero() {
    let chain = SanitisedNullifierSet::new(vec![], Pool::Sapling);
    let user = SanitisedNullifierSet::new(vec![[0x01; 32]], Pool::Sapling);
    let mapping = map_sapling_user_positions(&chain, &user).unwrap();
    assert_eq!(mapping.len(), 1);
    assert_eq!(mapping[0].nullifier, [0x01; 32]);
    assert_eq!(mapping[0].leaf_position, 0);
    assert_eq!(mapping[0].left_bound, [0x00; 32]);
    assert_eq!(mapping[0].right_bound, [0xff; 32]);
}

#[test]
fn non_member_maps_once_and_witness_verifies() {
    let chain = SanitisedNullifierSet::new(vec![nf(10), nf(20), nf(30)], Pool::Sapling);
    let user = SanitisedNullifierSet::new(vec![nf(25)], Pool::Sapling);
    let (tree, mapping) = NonMembershipTree::from_chain_and_user_nullifiers(&chain, &user).unwrap();
    assert_eq!(mapping.len(), 1);
    let tp = mapping[0];
    assert_eq!(tp.leaf_position, 2);
    assert_eq!(tp.left_bound, nf(20));
    assert_eq!(tp.right_bound, nf(30));
    assert_eq!(tree.marked_positions(), vec![2]);
    let witness = tree.witness_bytes(2).unwrap();
    let mut cur = sha256_pair(&tp.left_bound, &tp.right_bound);
    for (level, sibling) in witness.iter().enumerate() {
        cur = if (2u64 >> level) & 1 == 0 { sha256_pair(&cur, sibling) } else { sha256_pair(sibling, &cur) };
    }
    assert_eq!(cur, tree.root_bytes());
    assert!(matches!(tree.witness_bytes(1), Err(MerklePathError::NotMarked(1))));
}

#[test]
fn member_is_rejected() {
    let chain = SanitisedNullifierSet::new(vec![nf(10), nf(20), nf(30)], Pool::Sapling);
    let user = SanitisedNullifierSet::new(vec![nf(20)], Pool::Sapling);
    let mapping = map_sapling_user_positions(&chain, &user).unwrap();
    assert!(mapping.is_empty());
    let (tree, mapping) = NonMembershipTree::from_chain_and_user_nullifiers(&chain, &user).unwrap();
    assert!(mapping.is_empty());
    assert!(tree.marked_positions().is_empty());
}

#[test]
fn pools_are_isolated() {
    let sapling = SanitisedNullifierSet::new(vec![nf(1)], Pool::Sapling);
    let orchard = SanitisedNullifierSet::new(vec![nf(1)], Pool::Orchard);
    assert!(matches!(
        map_orchard_user_positions(&sapling, &orchard),
        Err(MerklePathError::PoolMismatch { expected: Pool::Orchard, actual: Pool::Sapling })
    ));
    assert!(matches!(
        map_sapling_user_positions(&sapling, &orchard),
        Err(MerklePathError::PoolMismatch { expected: Pool::Sapling, actual: Pool::Orchard })
    ));
    assert!(matches!(
        NonMembershipTree::from_chain_and_user_nullifiers(&sapling, &orchard),
        Err(MerklePathError::PoolMismatch { expected: Pool::Sapling, actual: Pool::Orchard })
    ));
}

#[test]
fn sapling_and_orchard_roots_differ() {
    let s = SanitisedNullifierSet::new(vec![orchard_nf(5)], Pool::Sapling);
    let o = SanitisedNullifierSet::new(vec![orchard_nf(5)], Pool::Orchard);
    let ts = NonMembershipTree::from_nullifiers(&s).unwrap();
    let to = NonMembershipTree::from_nullifiers(&o).unwrap();
    assert_ne!(ts.root_bytes(), to.root_bytes());
    assert_eq!(ts.leaf_count(), 2);
    assert_eq!(to.leaf_count(), 2);
}

#[test]
fn orchard_user_set_non_canonical() {
    let chain = SanitisedNullifierSet::new(vec![orchard_nf(3)], Pool::Orchard);
    let user = SanitisedNullifierSet::new(vec![orchard_nf(1), [0xff; 32]], Pool::Orchard);
    assert!(matches!(
        map_orchard_user_positions(&chain, &user),
        Err(MerklePathError::NonCanonicalOrchardNullifier { set: "user", index: 1 })
    ));
}

#[test]
fn orchard_gap_bounds_use_field_max() {
    let max = orchard_max_nullifier();
    let mut expected = [0u8; 32];
    expected[..8].copy_from_slice(&0x992d30ed00000000u64.to_le_bytes());
    expected[8..16].copy_from_slice(&0x224698fc094cf91bu64.to_le_bytes());
    expected[24..32].copy_from_slice(&0x4000000000000000u64.to_le_bytes());
    assert_eq!(max, expected);
    let chain = vec![orchard_nf(4), orchard_nf(9)];
    let gap = orchard_gap_bounds(&chain, 2);
    assert_eq!(gap.left_nf, orchard_nf(9));
    assert_eq!(gap.right_nf, max);
    let gap = orchard_gap_bounds(&chain, 0);
    assert_eq!(gap.left_nf, [0u8; 32]);
    assert_eq!(gap.right_nf, orchard_nf(4));
}

#[test]
fn sapling_gap_bounds_cases() {
    let chain = vec![nf(1), nf(2)];
    assert_eq!(sapling_gap_bounds(&chain, 0), ([0u8; 32], nf(1)));
    assert_eq!(sapling_gap_bounds(&chain, 1), (nf(1), nf(2)));
    assert_eq!(sapling_gap_bounds(&chain, 2), (nf(2), [0xff; 32]));
    assert_eq!(sapling_gap_bounds(&[], 0), ([0u8; 32], [0xff; 32]));
}

#[test]
fn orchard_canonical_checks() {
    assert_eq!(orchard_node_from_bytes(orchard_nf(7)), Some(orchard_nf(7)));
    assert_eq!(orchard_node_from_bytes(orchard_max_nullifier()), Some(orchard_max_nullifier()));
    let mut p = orchard_max_nullifier();
    p[0] = 1;
    assert_eq!(orchard_node_from_bytes(p), None);
    let sorted = canonicalize_orchard_chain_nullifiers("chain", &[orchard_nf(256), orchard_nf(1), orchard_nf(256)]).unwrap();
    assert_eq!(sorted, vec![orchard_nf(1), orchard_nf(256)]);
    assert!(matches!(
        canonicalize_orchard_chain_nullifiers("chain", &[orchard_nf(1), p]),
        Err(MerklePathError::NonCanonicalOrchardNullifier { set: "chain", index: 1 })
    ));
    assert_eq!(orchard_cmp(&orchard_nf(1), &orchard_nf(256)), std::cmp::Ordering::Less);
}

#[test]
fn sanitise_is_idempotent() {
    for pool in [Pool::Sapling, Pool::Orchard] {
        let once = SanitisedNullifierSet::new(vec![orchard_nf(300), nf(4), orchard_nf(2), nf(4)], pool);
        let twice = SanitisedNullifierSet::new(once.as_slice().to_vec(), pool);
        assert_eq!(once.as_slice(), twice.as_slice());
        assert_eq!(once.len(), 3);
    }
}

#[test]
fn binary_search_reports_gap() {
    let set = SanitisedNullifierSet::new(vec![nf(10), nf(20)], Pool::Sapling);
    assert_eq!(set.binary_search(&nf(20)), Ok(1));
    assert_eq!(set.binary_search(&nf(15)), Err(1));
    assert_eq!(set.binary_search(&nf(25)), Err(2));
    assert_eq!(set.binary_search(&nf(5)), Err(0));
}

#[test]
fn sentinel_user_nullifiers_are_not_mapped() {
    let chain = SanitisedNullifierSet::new(vec![], Pool::Orchard);
    let user = SanitisedNullifierSet::new(vec![[0u8; 32], orchard_max_nullifier(), orchard_nf(5)], Pool::Orchard);
    let (tree, mapping) = NonMembershipTree::from_chain_and_user_nullifiers(&chain, &user).unwrap();
    assert_eq!(mapping.len(), 1);
    assert_eq!(mapping[0].nullifier, orchard_nf(5));
    assert_eq!(tree.marked_positions(), vec![0]);

    let chain = SanitisedNullifierSet::new(vec![nf(9)], Pool::Sapling);
    let user = SanitisedNullifierSet::new(vec![[0u8; 32], [0xff; 32]], Pool::Sapling);
    let mapping = map_sapling_user_positions(&chain, &user).unwrap();
    assert!(mapping.is_empty());
    let (tree, mapping) = NonMembershipTree::from_chain_and_user_nullifiers(&chain, &user).unwrap();
    assert!(mapping.is_empty());
    assert!(tree.marked_positions().is_empty());
}
