use zair_gaptree::claim::{
    check_birthday, generate_user_proofs, verify_merkle_roots, ClaimError, NoteMetadata, PrivateInputs,
    SaplingNoteMetadata, UserNote,
};
use zair_gaptree::cli::{parse_network, parse_orchard_target_id, parse_pool_selection, parse_sapling_target_id, Network, PoolSelection};
use zair_gaptree::codec::{read_nullifiers, write_nullifiers, InvalidLength};
use zair_gaptree::config::{
    should_report_progress, AirdropConfiguration, ConfigError, HidingFactor, OrchardHidingFactor, SaplingHidingFactor,
    SnapshotRange,
};
use zair_gaptree::hex_codec::{encode_forward, encode_reversed};
use zair_gaptree::nullifier_set::SanitisedNullifierSet;
use zair_gaptree::order::{Nullifier, Pool, NULLIFIER_SIZE};
use zair_gaptree::source::{block_nullifiers, CompactTx, InvalidNullifierLength, partition_by_pool, FileSource, NullifierChunker, PoolNullifier, TrailingBytes, BUF_SIZE};
use zair_gaptree::tree::NonMembershipTree;

fn nf(v: u8) -> Nullifier {
    let mut arr = [0_u8; 32];
    arr[31] = v;
    arr
}

fn distinct(count: usize) -> Vec<Nullifier> {
    (0..count)
        .map(|i| {
            let mut arr = [0u8; 32];
            arr[..8].copy_from_slice(&(i as u64).wrapping_mul(0x9e37_79b9_7f4a_7c15).to_le_bytes());
            arr[31] = (i % 251) as u8;
            arr
        })
        .collect()
}

fn pack(nullifiers: &[Nullifier]) -> Vec<u8> {
    let mut out = Vec::new();
    write_nullifiers(nullifiers, &mut out);
    out
}

#[test]
fn read_nullifiers_valid() {
    let mut data = vec![0_u8; 64];
    data[31] = 1;
    data[63] = 2;

    let nullifiers = read_nullifiers(&data).expect("Failed to read nullifiers");

    assert_eq!(nullifiers.len(), 2, "Expected 2 nullifiers");
    assert_eq!(data, pack(&nullifiers), "Buffer does not match expected nullifier bytes");
}

#[test]
fn read_nullifiers_invalid_size() {
    let data = vec![0_u8; 33];
    let result = read_nullifiers(&data);
    assert!(matches!(result, Err(InvalidLength { len: 33 })), "Expected InvalidData error");
}

#[test]
fn read_nullifiers_empty() {
    let nullifiers = read_nullifiers(&[]).expect("Failed to read nullifiers");
    assert!(nullifiers.is_empty(), "Expected empty nullifiers vector");
}

#[test]
fn write_nullifiers_valid() {
    let nullifiers = distinct(3);
    let buf = pack(&nullifiers);
    assert_eq!(buf.len(), nullifiers.len() * NULLIFIER_SIZE);
    assert_eq!(&buf[32..64], &nullifiers[1]);
}

#[test]
fn write_read_roundtrip() {
    let written = distinct(3);
    let buf = pack(&written);
    let read_back = read_nullifiers(&buf).expect("Failed to read nullifiers");
    assert_eq!(written, read_back, "Roundtrip should preserve nullifiers");
}

#[test]
fn partition_by_pool_empty() {
    let (sapling, orchard) = partition_by_pool(&[]);
    assert!(sapling.is_empty(), "Expected zero sapling notes.");
    assert!(orchard.is_empty(), "Expected zero orchard notes.");
}

#[test]
fn partition_by_pool_test() {
    let items = vec![
        PoolNullifier { pool: Pool::Sapling, nullifier: nf(1) },
        PoolNullifier { pool: Pool::Orchard, nullifier: nf(2) },
        PoolNullifier { pool: Pool::Sapling, nullifier: nf(3) },
        PoolNullifier { pool: Pool::Orchard, nullifier: nf(4) },
        PoolNullifier { pool: Pool::Orchard, nullifier: nf(5) },
    ];
    let (sapling, orchard) = partition_by_pool(&items);

    assert_eq!(sapling.len(), 2);
    assert_eq!(sapling[0], nf(1));
    assert_eq!(sapling[1], nf(3));

    assert_eq!(orchard.len(), 3);
    assert_eq!(orchard[0], nf(2));
    assert_eq!(orchard[1], nf(4));
    assert_eq!(orchard[2], nf(5));
}

fn read_in_pieces(data: &[u8], piece: usize) -> (Vec<Nullifier>, Result<(), TrailingBytes>) {
    let mut chunker = NullifierChunker::new();
    let mut out = Vec::new();
    for part in data.chunks(piece) {
        out.extend(chunker.feed(part));
    }
    (out, chunker.finish())
}

fn check_read_nullifiers(sapling_count: usize, orchard_count: usize) {
    let source = FileSource::new(Some("sapling.bin".to_string()), Some("orchard.bin".to_string()));
    let buf = source.read_buffer_size();
    let mut items = Vec::new();
    for (pool, count) in [(Pool::Sapling, sapling_count), (Pool::Orchard, orchard_count)] {
        let data = pack(&distinct(count));
        let (nullifiers, end) = read_in_pieces(&data, buf);
        assert!(end.is_ok());
        items.extend(nullifiers.into_iter().map(|nullifier| PoolNullifier { pool, nullifier }));
    }
    let (sapling, orchard) = partition_by_pool(&items);
    assert_eq!(sapling.len(), sapling_count);
    assert_eq!(orchard.len(), orchard_count);
}

#[test]
fn test_empty() {
    check_read_nullifiers(0, 0);
}

#[test]
fn test_single() {
    check_read_nullifiers(1, 1);
}

#[test]
fn test_buffer_boundary() {
    check_read_nullifiers(BUF_SIZE / 32, BUF_SIZE / 32);
}

#[test]
fn test_over_buffer_boundary() {
    check_read_nullifiers(BUF_SIZE / 32 + 1, BUF_SIZE / 32 + 1);
}

#[test]
fn test_no_nullifiers() {
    let source = FileSource::new(None, None);
    assert!(source.files().is_empty());
}

#[test]
fn test_incomplete_nullifier() {
    let data = vec![0_u8; 33];
    let (nullifiers, end) = read_in_pieces(&data, BUF_SIZE);
    assert_eq!(nullifiers.len(), 1);
    assert_eq!(end, Err(TrailingBytes { len: 1 }));
}

#[test]
fn test_leftover_bytes_handling() {
    let nullifiers = vec![nf(1), nf(2), nf(3)];
    let data = pack(&nullifiers);
    assert_eq!(data.len(), nullifiers.len() * NULLIFIER_SIZE);
    let (results, end) = read_in_pieces(&data, 50);
    assert!(end.is_ok());
    assert_eq!(results, nullifiers);
}

#[test]
fn test_leftover_with_small_buffer() {
    let nullifiers = vec![nf(1), nf(2), nf(3), nf(4), nf(5)];
    let data = pack(&nullifiers);
    let (results, end) = read_in_pieces(&data, 45);
    assert!(end.is_ok());
    assert_eq!(results, nullifiers);
}

#[test]
fn test_leftover_at_eof_error() {
    let mut data = vec![0_u8; 42];
    data[0] = 0xAB;
    let (results, end) = read_in_pieces(&data, 100);
    assert_eq!(results.len(), 1);
    assert_eq!(results[0][0], 0xAB);
    assert_eq!(end, Err(TrailingBytes { len: 10 }));
}

#[test]
fn test_both_pools_with_small_buffer() {
    let source = FileSource::with_buf_size(Some("s".to_string()), Some("o".to_string()), 64);
    assert_eq!(source.read_buffer_size(), 64);
    assert_eq!(FileSource::with_buf_size(None, None, 3).read_buffer_size(), 32);
    let files = source.files();
    assert_eq!(files.len(), 2);
    assert_eq!(files[0].0, Pool::Sapling);
    assert_eq!(files[1].0, Pool::Orchard);
}

#[test]
fn sanity_check_conversions() {
    let sapling_hiding = SaplingHidingFactor { personalization: vec![1, 2, 3] };
    let orchard_hiding = OrchardHidingFactor { domain: "domain".to_string(), tag: vec![4, 5, 6] };

    let sapling_converted: zair_gaptree::user_nullifiers::SaplingHidingFactor = (&sapling_hiding).into();
    assert_eq!(sapling_converted.personalization, &[1, 2, 3]);

    let orchard_converted: zair_gaptree::user_nullifiers::OrchardHidingFactor = (&orchard_hiding).into();
    assert_eq!(orchard_converted.domain, "domain");
    assert_eq!(orchard_converted.tag, &[4, 5, 6]);
}

#[test]
fn pool_selection_parse() {
    assert!(matches!(parse_pool_selection("sapling").expect("sapling should parse"), PoolSelection::Sapling));
    assert!(matches!(parse_pool_selection("orchard").expect("orchard should parse"), PoolSelection::Orchard));
    assert!(matches!(parse_pool_selection("both").expect("both should parse"), PoolSelection::Both));
    assert!(parse_pool_selection("nope").is_err());
}

#[test]
fn network_parse() {
    let network = parse_network("mainnet").expect("Failed to parse mainnet");
    assert_eq!(network, Network::MainNetwork);
    let network = parse_network("testnet").expect("Failed to parse testnet");
    assert_eq!(network, Network::TestNetwork);
    assert!(parse_network("invalid_network").is_err());
    assert!(parse_network("Mainnet").is_err());
}

#[test]
fn target_id_lengths() {
    assert_eq!(parse_sapling_target_id("ZAIRTEST").unwrap(), "ZAIRTEST");
    assert!(parse_sapling_target_id("short").is_err());
    assert!(parse_orchard_target_id(&"x".repeat(32)).is_ok());
    assert!(parse_orchard_target_id(&"x".repeat(33)).is_err());
}

#[test]
fn progress_every_ten_percent() {
    let mut last = 0usize;
    assert!(!should_report_progress(5, 100, &mut last));
    assert!(should_report_progress(10, 100, &mut last));
    assert_eq!(last, 10);
    assert!(!should_report_progress(19, 100, &mut last));
    assert!(should_report_progress(35, 100, &mut last));
    assert_eq!(last, 35);
    assert!(!should_report_progress(1, 0, &mut last));
}

#[test]
fn hex_forward_and_reversed() {
    let mut b = [0u8; 32];
    b[0] = 0xab;
    b[31] = 0x01;
    let fwd = encode_forward(&b);
    assert!(fwd.starts_with("ab00"));
    assert!(fwd.ends_with("0001"));
    let rev = encode_reversed(&b);
    assert!(rev.starts_with("0100"));
    assert!(rev.ends_with("00ab"));
    assert_eq!(fwd.len(), 64);
}

fn config_with(sapling: Option<String>, orchard: Option<String>) -> AirdropConfiguration {
    AirdropConfiguration::new(SnapshotRange { start: 100, end: 200 }, sapling, orchard, HidingFactor::default())
}

#[test]
fn config_validation() {
    assert_eq!(config_with(Some("abc".to_string()), None).validate(), Ok(()));
    assert_eq!(config_with(None, None).validate(), Err(ConfigError::NoRoot));
    let bad = AirdropConfiguration::new(SnapshotRange { start: 5, end: 4 }, Some("a".to_string()), None, HidingFactor::default());
    assert_eq!(bad.validate(), Err(ConfigError::RangeInvalid));
    assert_eq!(bad.check_hiding_factor(Pool::Sapling), Err(ConfigError::SaplingPersonalizationLength));
    assert_eq!(bad.check_hiding_factor(Pool::Orchard), Ok(()));
}

#[test]
fn prepare_round_trip_checks_roots() {
    let chain = SanitisedNullifierSet::new(vec![nf(10), nf(20), nf(30)], Pool::Sapling);
    let tree = NonMembershipTree::from_nullifiers(&chain).unwrap();
    let root = tree.root_bytes();
    let config = config_with(Some(encode_forward(&root)), None);
    assert_eq!(verify_merkle_roots(&config, &Some(root), &None), Ok(()));
    let other = NonMembershipTree::from_nullifiers(&SanitisedNullifierSet::new(vec![nf(11)], Pool::Sapling)).unwrap();
    assert_eq!(
        verify_merkle_roots(&config, &Some(other.root_bytes()), &None),
        Err(ClaimError::RootMismatch { pool: Pool::Sapling })
    );
    assert_eq!(
        verify_merkle_roots(&config, &Some(root), &Some(root)),
        Err(ClaimError::RootMismatch { pool: Pool::Orchard })
    );
    assert_eq!(check_birthday(201, config.snapshot_range), Err(ClaimError::BirthdayAfterSnapshot));
    assert_eq!(check_birthday(200, config.snapshot_range), Ok(()));
}

#[test]
fn proofs_for_known_marked_notes() {
    let chain = SanitisedNullifierSet::new(vec![nf(10), nf(20), nf(30)], Pool::Sapling);
    let user = SanitisedNullifierSet::new(vec![nf(15), nf(25), nf(20)], Pool::Sapling);
    let (tree, mapping) = NonMembershipTree::from_chain_and_user_nullifiers(&chain, &user).unwrap();
    assert_eq!(mapping.len(), 2);
    let notes = vec![UserNote {
        nullifier: nf(25),
        metadata: NoteMetadata::Sapling(SaplingNoteMetadata {
            hiding_nullifier: [7; 32],
            note_commitment: [8; 32],
            note_position: 42,
            block_height: 1000,
        }),
    }];
    let proofs = generate_user_proofs(&tree, &mapping, &notes);
    assert_eq!(proofs.len(), 1);
    assert_eq!(proofs[0].block_height, 1000);
    assert_eq!(proofs[0].public_inputs.hiding_nullifier, [7; 32]);
    match &proofs[0].private_inputs {
        PrivateInputs::Sapling(p) => {
            assert_eq!(p.nullifier, nf(25));
            assert_eq!(p.leaf_position, 2);
            assert_eq!(p.left_nullifier, nf(20));
            assert_eq!(p.right_nullifier, nf(30));
            assert_eq!(p.note_position, 42);
            assert_eq!(p.merkle_proof.len(), 1024);
            let witness = tree.witness_bytes(2).unwrap();
            assert_eq!(&p.merkle_proof[..32], &witness[0]);
        },
        PrivateInputs::Orchard(_) => panic!("expected a Sapling proof"),
    }
}

#[test]
fn block_nullifiers_tags_spends_and_actions() {
    let txs = vec![
        CompactTx { spends: vec![nf(1).to_vec(), nf(2).to_vec()], actions: vec![nf(3).to_vec()] },
        CompactTx { spends: vec![], actions: vec![nf(4).to_vec()] },
    ];
    let items = block_nullifiers(&txs).unwrap();
    let pools: Vec<Pool> = items.iter().map(|i| i.pool).collect();
    assert_eq!(pools, vec![Pool::Sapling, Pool::Sapling, Pool::Orchard, Pool::Orchard]);
    assert_eq!(items[2].nullifier, nf(3));
    let bad = vec![CompactTx { spends: vec![nf(1).to_vec()], actions: vec![vec![0u8; 31], vec![0u8; 5]] }];
    assert_eq!(block_nullifiers(&bad), Err(InvalidNullifierLength { len: 31 }));
}
