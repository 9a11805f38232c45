use std::collections::HashSet;

use sha1::Digest as _;
use shardmeld::bridge::{plan_v1_bridge, BridgeError};
use shardmeld::chunker::{ChunkRecord, Chunker};
use shardmeld::descriptor::{TargetDescriptor, TargetInfo};
use shardmeld::metadata::{parse_v1_torrent, MetadataError, TorrentV1};
use shardmeld::bridge::chunk_overlaps;
use shardmeld::peer::{check_pieces_start_inside, redundant_bytes};
use shardmeld::resume::first_failed_piece;
use shardmeld::profile::ChunkProfile;

fn deterministic_bytes(length: usize) -> Vec<u8> {
    let mut value = 0x6a09_e667_f3bc_c909_u64;
    let mut bytes = Vec::with_capacity(length);
    for _ in 0..length {
        value ^= value << 13;
        value ^= value >> 7;
        value ^= value << 17;
        bytes.push((value >> 24) as u8);
    }
    bytes
}

fn single_file_torrent_with_trackers(
    name: &str,
    bytes: &[u8],
    piece_length: usize,
    announce: Option<&str>,
    announce_list: Option<&[Vec<&str>]>,
) -> Vec<u8> {
    let mut piece_hashes = Vec::new();
    for piece in bytes.chunks(piece_length) {
        piece_hashes.extend_from_slice(&sha1::Sha1::digest(piece));
    }
    let mut torrent = Vec::new();
    torrent.push(b'd');
    if let Some(announce) = announce {
        torrent.extend_from_slice(b"8:announce");
        torrent.extend_from_slice(announce.len().to_string().as_bytes());
        torrent.push(b':');
        torrent.extend_from_slice(announce.as_bytes());
    }
    if let Some(tiers) = announce_list {
        torrent.extend_from_slice(b"13:announce-listl");
        for tier in tiers {
            torrent.push(b'l');
            for tracker in tier {
                torrent.extend_from_slice(tracker.len().to_string().as_bytes());
                torrent.push(b':');
                torrent.extend_from_slice(tracker.as_bytes());
            }
            torrent.push(b'e');
        }
        torrent.push(b'e');
    }
    torrent.extend_from_slice(b"4:info");
    torrent.extend_from_slice(b"d6:lengthi");
    torrent.extend_from_slice(bytes.len().to_string().as_bytes());
    torrent.extend_from_slice(b"e4:name");
    torrent.extend_from_slice(name.len().to_string().as_bytes());
    torrent.push(b':');
    torrent.extend_from_slice(name.as_bytes());
    torrent.extend_from_slice(b"12:piece lengthi");
    torrent.extend_from_slice(piece_length.to_string().as_bytes());
    torrent.extend_from_slice(b"e6:pieces");
    torrent.extend_from_slice(piece_hashes.len().to_string().as_bytes());
    torrent.push(b':');
    torrent.extend_from_slice(&piece_hashes);
    torrent.extend_from_slice(b"ee");
    torrent
}

fn single_file_torrent(name: &str, bytes: &[u8], piece_length: usize) -> Vec<u8> {
    single_file_torrent_with_trackers(name, bytes, piece_length, None, None)
}

fn chunks_of(bytes: &[u8], profile: ChunkProfile) -> Vec<ChunkRecord> {
    let mut chunker = Chunker::new(profile).unwrap();
    let mut records = Vec::new();
    for block in bytes.chunks(100_000) {
        records.extend(chunker.push(block));
    }
    records.extend(chunker.finish());
    records
}

fn describe(name: &str, bytes: &[u8], profile: ChunkProfile) -> TargetDescriptor {
    let descriptor = TargetDescriptor {
        format: "shardmeld-descriptor".to_owned(),
        version: 1,
        chunk_algorithm: "gear-cdc-v1+blake3-256".to_owned(),
        profile,
        target: TargetInfo {
            name: name.to_owned(),
            size: bytes.len() as u64,
            sha256: hex::encode(sha2::Sha256::digest(bytes)),
        },
        chunks: chunks_of(bytes, profile),
    };
    descriptor.validate().unwrap();
    descriptor
}

/// The bytes of each target chunk that a source file also holds.
fn local_from(source: &[u8], target: &[u8], descriptor: &TargetDescriptor) -> Vec<Option<Vec<u8>>> {
    let known: HashSet<(String, u32)> =
        chunks_of(source, descriptor.profile).into_iter().map(|c| (c.hash, c.length)).collect();
    descriptor
        .chunks
        .iter()
        .map(|c| {
            if known.contains(&(c.hash.clone(), c.length)) {
                let start = c.offset as usize;
                Some(target[start..start + c.length as usize].to_vec())
            } else {
                None
            }
        })
        .collect()
}

fn torrent_of(encoded: &[u8]) -> TorrentV1 {
    parse_v1_torrent(encoded).unwrap()
}

#[test]
fn parses_multitracker_tiers_without_changing_info_hash() {
    let bytes = deterministic_bytes(128 * 1024);
    let tiers = vec![
        vec!["udp://127.0.0.1:45993/announce"],
        vec!["http://127.0.0.1:45994/announce", "https://tracker.example/announce"],
    ];
    let plain = torrent_of(&single_file_torrent("target.bin", &bytes, 64 * 1024));
    let tiered = torrent_of(&single_file_torrent_with_trackers(
        "target.bin",
        &bytes,
        64 * 1024,
        Some("http://ignored.example/announce"),
        Some(&tiers),
    ));
    assert_eq!(plain.info_hash_sha1, tiered.info_hash_sha1);
    assert_eq!(tiered.announce_list.unwrap().len(), 2);
}

#[test]
fn rejects_multi_file_v1_torrent() {
    let encoded =
        b"d4:infod5:filesld6:lengthi1e4:pathl1:aeee4:name1:x12:piece lengthi1e6:pieces20:00000000000000000000ee";
    assert_eq!(parse_v1_torrent(encoded), Err(MetadataError::MultiFile));
}

#[test]
fn exact_local_file_maps_to_verified_bt_have_pieces() {
    let bytes = deterministic_bytes(512 * 1024 + 123);
    let profile = ChunkProfile::named("s").unwrap();
    let descriptor = describe("target.bin", &bytes, profile);
    let torrent = torrent_of(&single_file_torrent("target.bin", &bytes, 64 * 1024));
    let local = local_from(&bytes, &bytes, &descriptor);
    let report = plan_v1_bridge(&torrent, &descriptor, &local).unwrap();
    assert_eq!(report.fully_local_pieces, report.total_pieces);
    assert_eq!(report.fully_reconstructable_piece_bytes, bytes.len() as u64);
    assert_eq!(report.missing_bytes, 0);
    assert!(report.pieces.iter().all(|piece| piece.local_sha1_verified));
}

#[test]
fn shifted_target_reports_a_mixture_of_complete_and_incomplete_bt_pieces() {
    let original = deterministic_bytes(2 * 1024 * 1024);
    let mut target = original.clone();
    target.splice(600_000..600_000, deterministic_bytes(12_345));
    for byte in &mut target[1_400_000..1_420_000] {
        *byte ^= 0x5a;
    }
    let profile = ChunkProfile::named("s").unwrap();
    let descriptor = describe("target.bin", &target, profile);
    let torrent = torrent_of(&single_file_torrent("target.bin", &target, 64 * 1024));
    let local = local_from(&original, &target, &descriptor);
    let report = plan_v1_bridge(&torrent, &descriptor, &local).unwrap();
    assert!(report.fully_local_pieces > 0);
    assert!(report.missing_pieces > 0);
    assert!(report.locally_covered_bytes > report.fully_reconstructable_piece_bytes);
    assert!(report.locally_covered_bytes as f64 / report.target_bytes as f64 > 0.80);
}

#[test]
fn locally_complete_piece_must_match_torrent_sha1() {
    let bytes = deterministic_bytes(128 * 1024);
    let mut encoded = single_file_torrent("target.bin", &bytes, 64 * 1024);
    let marker: &[u8] = b"6:pieces40:";
    let first_hash_byte = encoded.windows(marker.len()).position(|window| window == marker).unwrap() + marker.len();
    encoded[first_hash_byte] ^= 0xff;
    let profile = ChunkProfile::named("s").unwrap();
    let descriptor = describe("target.bin", &bytes, profile);
    let local = local_from(&bytes, &bytes, &descriptor);
    assert_eq!(plan_v1_bridge(&torrent_of(&encoded), &descriptor, &local), Err(BridgeError::PieceSha1(0)));
}

#[test]
fn first_failed_piece_finds_the_corrupted_piece() {
    let bytes = deterministic_bytes(150 * 1024);
    let torrent = torrent_of(&single_file_torrent("target.bin", &bytes, 64 * 1024));
    assert!(check_pieces_start_inside(&torrent));
    assert_eq!(first_failed_piece(&torrent, &bytes), None);
    let mut corrupted = bytes.clone();
    corrupted[70 * 1024] ^= 1;
    assert_eq!(first_failed_piece(&torrent, &corrupted), Some(1));
    corrupted[10] ^= 1;
    assert_eq!(first_failed_piece(&torrent, &corrupted), Some(0));
    let mut last = bytes.clone();
    last[150 * 1024 - 1] ^= 1;
    assert_eq!(first_failed_piece(&torrent, &last), Some(2));
}

#[test]
fn piece_extent_overlap_and_redundancy_helpers() {
    let chunk = ChunkRecord { offset: 100, length: 50, hash: String::new() };
    assert!(chunk_overlaps(&chunk, 0, 101));
    assert!(!chunk_overlaps(&chunk, 0, 100));
    assert!(!chunk_overlaps(&chunk, 150, 200));
    assert!(chunk_overlaps(&chunk, 149, 200));
    assert_eq!(redundant_bytes(10, 4), 6);
    assert_eq!(redundant_bytes(4, 10), 0);
}
