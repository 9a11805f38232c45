use sha1::Digest as _;
use shardmeld::address::NetworkId;
use shardmeld::bridge::{plan_v1_bridge, BridgeError};
use shardmeld::chunker::ChunkRecord;
use shardmeld::descriptor::{TargetDescriptor, TargetInfo};
use shardmeld::ledger::LedgerBook;
use shardmeld::metadata::TorrentV1;
use shardmeld::profile::ChunkProfile;
use shardmeld::resume::{fresh_resume_state, piece_bytes_match, validate_resume_state, ResumeError};
use shardmeld::workflow::{compare_counts, verify_chunk};

fn field(out: &mut Vec<u8>, bytes: &[u8]) {
    out.extend_from_slice(&(bytes.len() as u64).to_be_bytes());
    out.extend_from_slice(bytes);
}

#[test]
fn genesis_state_root_covers_every_table() {
    let book = LedgerBook::genesis(NetworkId::Devnet).unwrap();
    let report = book.audit().unwrap();
    let g: u64 = 100_000_000_000_000;
    let mut message = Vec::new();
    field(&mut message, b"ShardMeld/SMD/ledger-state/v1\0");
    field(&mut message, b"devnet");
    field(&mut message, b"metadata");
    field(&mut message, b"network_id");
    field(&mut message, b"devnet");
    field(&mut message, b"schema_version");
    field(&mut message, b"1");
    field(&mut message, b"supply_state");
    for v in [g, 0, g, 0] {
        field(&mut message, &v.to_be_bytes());
    }
    field(&mut message, b"accounts");
    field(&mut message, b"SMD_PERMANENT_RESERVE");
    field(&mut message, &g.to_be_bytes());
    field(&mut message, &0u64.to_be_bytes());
    field(&mut message, b"none");
    field(&mut message, b"transactions");
    field(&mut message, b"reward_receipts");
    field(&mut message, b"epochs");
    let expected = hex::encode(sha2::Sha256::digest(&message));
    assert_eq!(report.state_root_sha256, expected);
    assert_eq!(report.audit_version, 1);
    assert_eq!(report.accounts, 1);
    assert_eq!(report.epochs, 0);
    assert!(report.invariants_valid);
}

#[test]
fn state_root_is_deterministic_and_tracks_changes() {
    let mut book = LedgerBook::genesis(NetworkId::Devnet).unwrap();
    let first = book.audit().unwrap().state_root_sha256;
    assert_eq!(book.audit().unwrap().state_root_sha256, first);
    book.mine_rewards(5, &shardmeld::consensus::DevnetAuthorityConsensus).unwrap();
    let after = book.audit().unwrap();
    assert_ne!(after.state_root_sha256, first);
    assert_eq!(after.epochs, 1);
}

fn blake3_hex(bytes: &[u8]) -> String {
    blake3::hash(bytes).to_hex().to_string()
}

fn sha1_hex(bytes: &[u8]) -> String {
    hex::encode(sha1::Sha1::digest(bytes))
}

fn sample() -> (Vec<u8>, TargetDescriptor, TorrentV1) {
    let data: Vec<u8> = (0..100u32).map(|i| (i * 7 + 3) as u8).collect();
    let chunks = vec![
        ChunkRecord { offset: 0, length: 50, hash: blake3_hex(&data[..50]) },
        ChunkRecord { offset: 50, length: 50, hash: blake3_hex(&data[50..]) },
    ];
    let descriptor = TargetDescriptor {
        format: "shardmeld-descriptor".to_owned(),
        version: 1,
        chunk_algorithm: "gear-cdc-v1+blake3-256".to_owned(),
        profile: ChunkProfile::named("m").unwrap(),
        target: TargetInfo {
            name: "target.bin".to_owned(),
            size: 100,
            sha256: hex::encode(sha2::Sha256::digest(&data)),
        },
        chunks,
    };
    let torrent = TorrentV1 {
        name: "target.bin".to_owned(),
        total_length: 100,
        piece_length: 64,
        piece_sha1: vec![sha1_hex(&data[..64]), sha1_hex(&data[64..])],
        info_hash_sha1: "00".repeat(20),
        announce: None,
        announce_list: None,
    };
    (data, descriptor, torrent)
}

#[test]
fn bridge_plan_counts_local_pieces() {
    let (data, descriptor, torrent) = sample();
    let partial = plan_v1_bridge(&torrent, &descriptor, &vec![Some(data[..50].to_vec()), None]).unwrap();
    assert_eq!(partial.total_pieces, 2);
    assert_eq!(partial.fully_local_pieces, 0);
    assert_eq!(partial.partially_local_pieces, 1);
    assert_eq!(partial.pieces[0].locally_covered_bytes, 50);
    assert_eq!(partial.pieces[0].missing_bytes, 14);
    assert_eq!(partial.pieces[1].locally_covered_bytes, 0);
    assert_eq!(partial.pieces[1].length, 36);
    assert_eq!(partial.locally_covered_bytes, 50);
    assert_eq!(partial.missing_bytes, 50);
    assert!(partial.names_match);

    let full = plan_v1_bridge(
        &torrent,
        &descriptor,
        &vec![Some(data[..50].to_vec()), Some(data[50..].to_vec())],
    )
    .unwrap();
    assert_eq!(full.fully_local_pieces, 2);
    assert_eq!(full.missing_pieces, 0);
    assert_eq!(full.fully_reconstructable_piece_bytes, 100);
    assert!(full.pieces.iter().all(|p| p.local_sha1_verified));

    let mut wrong = data[50..].to_vec();
    wrong[0] ^= 1;
    assert_eq!(
        plan_v1_bridge(&torrent, &descriptor, &vec![Some(data[..50].to_vec()), Some(wrong)]),
        Err(BridgeError::PieceSha1(0))
    );
    let mut bigger = torrent.clone();
    bigger.total_length = 101;
    assert_eq!(
        plan_v1_bridge(&bigger, &descriptor, &vec![None, None]),
        Err(BridgeError::SizeMismatch)
    );
}

#[test]
fn compare_counts_and_chunk_checks() {
    let (data, descriptor, torrent) = sample();
    let counts = compare_counts(&descriptor, &vec![true, false]).unwrap();
    assert_eq!(counts.matched_chunks, 1);
    assert_eq!(counts.missing_chunks, 1);
    assert_eq!(counts.local_reusable_bytes, 50);
    assert_eq!(counts.missing_payload_bytes, 50);
    assert!(verify_chunk(&data[..50], &descriptor.chunks[0].hash));
    assert!(!verify_chunk(&data[..49], &descriptor.chunks[0].hash));
    assert!(piece_bytes_match(&torrent, 1, &data[64..]));
    assert!(!piece_bytes_match(&torrent, 1, &data[63..]));
    let state = fresh_resume_state(&torrent, &descriptor);
    assert_eq!(state.completed_pieces, vec![false, false]);
    assert_eq!(validate_resume_state(&state, &torrent, &descriptor), Ok(()));
    let mut other = state.clone();
    other.piece_length = 32;
    assert_eq!(validate_resume_state(&other, &torrent, &descriptor), Err(ResumeError::Mismatch));
    other.version = 2;
    assert_eq!(validate_resume_state(&other, &torrent, &descriptor), Err(ResumeError::Format));
}
