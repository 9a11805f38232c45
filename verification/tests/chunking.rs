use shardmeld::chunker::{ChunkRecord, Chunker};
use shardmeld::descriptor::{TargetDescriptor, TargetInfo};
use shardmeld::profile::ChunkProfile;
use shardmeld::workflow::{compare_counts, verify_chunk};

fn deterministic_bytes(length: usize) -> Vec<u8> {
    let mut value = 0x6a09_e667_f3bc_c909_u64;
    let mut bytes = Vec::with_capacity(length);
    for _ in 0..length {
        value ^= value << 13;
        value ^= value >> 7;
        value ^= value << 17;
        bytes.push((value >> 24) as u8);
    }
    bytes
}

fn chunks_of(bytes: &[u8], profile: ChunkProfile, block: usize) -> Vec<ChunkRecord> {
    let mut chunker = Chunker::new(profile).unwrap();
    let mut records = Vec::new();
    for part in bytes.chunks(block) {
        records.extend(chunker.push(part));
    }
    records.extend(chunker.finish());
    records
}

#[test]
fn identical_file_reuses_every_byte() {
    let bytes = deterministic_bytes(1024 * 1024);
    let profile = ChunkProfile::named("s").unwrap();
    let chunks = chunks_of(&bytes, profile, 65_536);
    let descriptor = TargetDescriptor {
        format: "shardmeld-descriptor".to_owned(),
        version: 1,
        chunk_algorithm: "gear-cdc-v1+blake3-256".to_owned(),
        profile,
        target: TargetInfo { name: "same.bin".to_owned(), size: bytes.len() as u64, sha256: "ab".repeat(32) },
        chunks,
    };
    descriptor.validate().unwrap();
    let found = vec![true; descriptor.chunks.len()];
    let counts = compare_counts(&descriptor, &found).unwrap();
    assert_eq!(counts.local_reusable_bytes, bytes.len() as u64);
    assert_eq!(counts.missing_payload_bytes, 0);
    assert_eq!(counts.matched_chunks, descriptor.chunks.len() as u64);
}

#[test]
fn every_named_profile_can_rebuild_exactly() {
    let bytes = deterministic_bytes(1024 * 1024);
    for name in ["s", "m", "l"] {
        let profile = ChunkProfile::named(name).unwrap();
        let chunks = chunks_of(&bytes, profile, 100_003);
        let mut rebuilt = Vec::with_capacity(bytes.len());
        for (i, chunk) in chunks.iter().enumerate() {
            assert_eq!(chunk.offset, rebuilt.len() as u64);
            assert!(chunk.length <= profile.max_size);
            if i + 1 < chunks.len() {
                assert!(chunk.length >= profile.min_size);
            }
            let piece = &bytes[chunk.offset as usize..(chunk.offset + u64::from(chunk.length)) as usize];
            assert!(verify_chunk(piece, &chunk.hash));
            rebuilt.extend_from_slice(piece);
        }
        assert_eq!(rebuilt, bytes);
    }
}

#[test]
fn chunk_boundaries_do_not_depend_on_read_sizes() {
    let bytes = deterministic_bytes(300_000);
    let profile = ChunkProfile::named("s").unwrap();
    let whole = chunks_of(&bytes, profile, bytes.len());
    assert_eq!(chunks_of(&bytes, profile, 1_000), whole);
    assert_eq!(chunks_of(&bytes, profile, 7), whole);
}
