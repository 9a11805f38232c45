//! The reconstruction workflow's decisions: which chunks the local index
//! supplies, how many bytes are missing, and whether bytes are the chunk a
//! descriptor names.

use vstd::prelude::*;

use crate::chunker::ChunkRecord;
use crate::codec::{blake3, blake3_digest, hex_encode, hex_lower};
use crate::descriptor::{descriptor_check, DescriptorError, TargetDescriptor};
use crate::text::ascii_chars;

verus! {

/// How a descriptor's chunks compare with the local index.
#[derive(Debug, Clone, Copy, PartialEq, Eq, Structural)]
pub struct CompareCounts {
    pub target_bytes: u64,
    pub target_chunks: u64,
    pub matched_chunks: u64,
    pub missing_chunks: u64,
    pub local_reusable_bytes: u64,
    pub missing_payload_bytes: u64,
}

/// The number of chunks among the first `k` that the index has.
pub open spec fn matched_count(found: Seq<bool>, k: int) -> int
    decreases k,
{
    if k <= 0 {
        0
    } else {
        matched_count(found, k - 1) + if found[k - 1] { 1int } else { 0int }
    }
}

/// The bytes of the chunks among the first `k` that the index has.
pub open spec fn matched_bytes(chunks: Seq<ChunkRecord>, found: Seq<bool>, k: int) -> int
    decreases k,
{
    if k <= 0 {
        0
    } else {
        matched_bytes(chunks, found, k - 1) + if found[k - 1] { chunks[k - 1].length as int } else { 0int }
    }
}

/// The bytes of the first `k` chunks.
pub open spec fn chunk_bytes(chunks: Seq<ChunkRecord>, k: int) -> int
    decreases k,
{
    if k <= 0 {
        0
    } else {
        chunk_bytes(chunks, k - 1) + chunks[k - 1].length
    }
}

proof fn lemma_matched_le(chunks: Seq<ChunkRecord>, found: Seq<bool>, k: int)
    ensures
        0 <= matched_bytes(chunks, found, k) <= chunk_bytes(chunks, k),
        0 <= matched_count(found, k) <= if k > 0 { k } else { 0 },
    decreases k,
{
    if k > 0 {
        lemma_matched_le(chunks, found, k - 1);
    }
}

/// The chunks of a valid descriptor end at the target's size.
proof fn lemma_chunks_add_up(chunks: Seq<ChunkRecord>, i: int, expected: u64)
    requires
        0 <= i <= chunks.len(),
        expected == chunk_bytes(chunks, i),
        crate::descriptor::chunks_check(chunks, i, expected) is Ok,
    ensures
        crate::descriptor::chunks_check(chunks, i, expected)->Ok_0 == chunk_bytes(chunks, chunks.len() as int),
    decreases chunks.len() - i,
{
    if i < chunks.len() {
        lemma_chunks_add_up(chunks, i + 1, (expected + chunks[i].length) as u64);
    }
}

/// Compares a descriptor with the local index: `found` says, for each
/// chunk, whether the index has it.
pub fn compare_counts(descriptor: &TargetDescriptor, found: &Vec<bool>) -> (counts: Result<CompareCounts, DescriptorError>)
    requires
        found@.len() == descriptor.chunks@.len(),
    ensures
        match counts {
            Err(e) => descriptor_check(*descriptor) == Err::<(), DescriptorError>(e),
            Ok(c) => {
                let n = descriptor.chunks@.len() as int;
                &&& descriptor_check(*descriptor) is Ok
                &&& c.target_bytes == descriptor.target.size
                &&& c.target_chunks == n
                &&& c.matched_chunks == matched_count(found@, n)
                &&& c.missing_chunks == n - matched_count(found@, n)
                &&& c.local_reusable_bytes == matched_bytes(descriptor.chunks@, found@, n)
                &&& c.missing_payload_bytes == descriptor.target.size - matched_bytes(descriptor.chunks@, found@, n)
            },
        },
{
    match descriptor.validate() {
        Ok(()) => {},
        Err(e) => {
            return Err(e);
        },
    }
    proof {
        lemma_chunks_add_up(descriptor.chunks@, 0, 0);
    }
    let n = descriptor.chunks.len();
    let mut matched: u64 = 0;
    let mut bytes: u64 = 0;
    let mut all: u64 = 0;
    let mut k: usize = 0;
    while k < n
        invariant
            n == descriptor.chunks@.len(),
            found@.len() == n,
            k <= n,
            matched == matched_count(found@, k as int),
            bytes == matched_bytes(descriptor.chunks@, found@, k as int),
            all == chunk_bytes(descriptor.chunks@, k as int),
            chunk_bytes(descriptor.chunks@, n as int) == descriptor.target.size,
        decreases n - k,
    {
        proof {
            lemma_matched_le(descriptor.chunks@, found@, k as int + 1);
            lemma_chunk_bytes_monotone(descriptor.chunks@, k as int + 1, n as int);
        }
        all = all + descriptor.chunks[k].length as u64;
        if found[k] {
            matched = matched + 1;
            bytes = bytes + descriptor.chunks[k].length as u64;
        }
        k = k + 1;
    }
    proof {
        lemma_matched_le(descriptor.chunks@, found@, n as int);
    }
    Ok(
        CompareCounts {
            target_bytes: descriptor.target.size,
            target_chunks: n as u64,
            matched_chunks: matched,
            missing_chunks: n as u64 - matched,
            local_reusable_bytes: bytes,
            missing_payload_bytes: descriptor.target.size - bytes,
        },
    )
}

proof fn lemma_chunk_bytes_monotone(chunks: Seq<ChunkRecord>, a: int, b: int)
    requires
        0 <= a <= b,
    ensures
        chunk_bytes(chunks, a) <= chunk_bytes(chunks, b),
    decreases b - a,
{
    if a < b {
        lemma_chunk_bytes_monotone(chunks, a, b - 1);
    }
}

/// Whether bytes are the chunk whose hash is given: their lower-case hex
/// BLAKE3 is the hash.
pub fn verify_chunk(bytes: &[u8], expected_hash: &str) -> (ok: bool)
    ensures
        ok == (ascii_chars(hex_lower(blake3_digest(bytes@))) == expected_hash@),
{
    let digest = blake3(bytes);
    let actual = hex_encode(&digest);
    actual == String::from_str(expected_hash)
}

} // verus!
