//! Target descriptors: the chunk list and digest that describe a file to
//! rebuild.

use vstd::prelude::*;
use vstd::string::StringSliceAdditionalSpecFns;
use vstd::utf8::encode_utf8;

use crate::chunker::ChunkRecord;
use crate::codec::{hex_decode, hex_decoded};
use crate::profile::{profile_check, ChunkProfile, ProfileError};

verus! {

pub const DESCRIPTOR_FORMAT: &'static str = "shardmeld-descriptor";

pub const DESCRIPTOR_VERSION: u32 = 1;

pub const CHUNK_ALGORITHM: &'static str = "gear-cdc-v1+blake3-256";

/// The file a descriptor describes.
#[derive(Debug, Clone, PartialEq, Eq)]
pub struct TargetInfo {
    pub name: String,
    pub size: u64,
    pub sha256: String,
}

/// A file described by its content-defined chunks.
#[derive(Debug, Clone, PartialEq, Eq)]
pub struct TargetDescriptor {
    pub format: String,
    pub version: u32,
    pub chunk_algorithm: String,
    pub profile: ChunkProfile,
    pub target: TargetInfo,
    pub chunks: Vec<ChunkRecord>,
}

/// Why a descriptor was refused.
#[derive(Debug, Clone, Copy, PartialEq, Eq, Structural)]
pub enum DescriptorError {
    /// Another format or version.
    Format,
    /// Another chunk algorithm.
    Algorithm,
    Profile(ProfileError),
    /// The target SHA-256 is not 64 hex digits.
    TargetHash,
    /// Chunk `index` does not start where the previous one ended.
    ChunkOffset(usize),
    /// Chunk `index` is empty.
    ZeroLength(usize),
    /// Chunk `index` has no 64-hex-digit BLAKE3 hash.
    ChunkHash(usize),
    /// The chunk lengths add up past 64 bits.
    SizeOverflow,
    /// The chunk lengths do not add up to the target size.
    SizeMismatch,
    /// A non-empty target has no chunks.
    NoChunks,
}

/// Whether text is 64 hex digits (32 bytes).
pub open spec fn is_hex_digest(text: Seq<char>) -> bool {
    encode_utf8(text).len() == 64 && hex_decoded(encode_utf8(text)) is Some
}

/// The first problem with the chunks from `index` on, given where chunk
/// `index` must start; else where the last one ends.
pub open spec fn chunks_check(chunks: Seq<ChunkRecord>, index: int, expected: u64) -> Result<u64, DescriptorError>
    decreases chunks.len() - index,
{
    if index < 0 || index >= chunks.len() {
        Ok(expected)
    } else {
        let c = chunks[index];
        if c.offset != expected {
            Err(DescriptorError::ChunkOffset(index as usize))
        } else if c.length == 0 {
            Err(DescriptorError::ZeroLength(index as usize))
        } else if !is_hex_digest(c.hash@) {
            Err(DescriptorError::ChunkHash(index as usize))
        } else if expected + c.length > u64::MAX {
            Err(DescriptorError::SizeOverflow)
        } else {
            chunks_check(chunks, index + 1, (expected + c.length) as u64)
        }
    }
}

/// What checking a descriptor gives.
pub open spec fn descriptor_check(d: TargetDescriptor) -> Result<(), DescriptorError> {
    if d.format@ != DESCRIPTOR_FORMAT@ || d.version != DESCRIPTOR_VERSION {
        Err(DescriptorError::Format)
    } else if d.chunk_algorithm@ != CHUNK_ALGORITHM@ {
        Err(DescriptorError::Algorithm)
    } else if profile_check(d.profile) is Err {
        Err(DescriptorError::Profile(profile_check(d.profile)->Err_0))
    } else if !is_hex_digest(d.target.sha256@) {
        Err(DescriptorError::TargetHash)
    } else {
        chunks_tile_target(d)
    }
}

/// Whether the chunks tile the target from offset 0 to its size.
pub open spec fn chunks_tile_target(d: TargetDescriptor) -> Result<(), DescriptorError> {
    match chunks_check(d.chunks@, 0, 0) {
        Err(e) => Err(e),
        Ok(end) => if end != d.target.size {
            Err(DescriptorError::SizeMismatch)
        } else if d.target.size > 0 && d.chunks@.len() == 0 {
            Err(DescriptorError::NoChunks)
        } else {
            Ok(())
        },
    }
}

/// Whether a string is 64 hex digits.
pub fn hex_digest_text(text: &String) -> (ok: bool)
    ensures
        ok == is_hex_digest(text@),
{
    let bytes = text.as_str().as_bytes();
    if bytes.len() != 64 {
        return false;
    }
    hex_decode(bytes).is_some()
}

impl TargetDescriptor {
    /// Checks the format, algorithm, profile and digests, and that the chunks
    /// tile the target from offset 0 to its size without gaps.
    pub fn validate(&self) -> (result: Result<(), DescriptorError>)
        ensures
            result == descriptor_check(*self),
    {
        if self.format != String::from_str(DESCRIPTOR_FORMAT) || self.version != DESCRIPTOR_VERSION {
            return Err(DescriptorError::Format);
        }
        if self.chunk_algorithm != String::from_str(CHUNK_ALGORITHM) {
            return Err(DescriptorError::Algorithm);
        }
        match self.profile.validate() {
            Ok(()) => {},
            Err(e) => {
                return Err(DescriptorError::Profile(e));
            },
        }
        if !hex_digest_text(&self.target.sha256) {
            return Err(DescriptorError::TargetHash);
        }
        let mut expected: u64 = 0;
        let mut i: usize = 0;
        while i < self.chunks.len()
            invariant
                i <= self.chunks@.len(),
                descriptor_check(*self) == chunks_tile_target(*self),
                chunks_check(self.chunks@, 0, 0) == chunks_check(self.chunks@, i as int, expected),
            decreases self.chunks@.len() - i,
        {
            let chunk = &self.chunks[i];
            if chunk.offset != expected {
                return Err(DescriptorError::ChunkOffset(i));
            }
            if chunk.length == 0 {
                return Err(DescriptorError::ZeroLength(i));
            }
            if !hex_digest_text(&chunk.hash) {
                return Err(DescriptorError::ChunkHash(i));
            }
            expected = match expected.checked_add(chunk.length as u64) {
                Some(next) => next,
                None => {
                    return Err(DescriptorError::SizeOverflow);
                },
            };
            i = i + 1;
        }
        if expected != self.target.size {
            return Err(DescriptorError::SizeMismatch);
        }
        if self.target.size > 0 && self.chunks.len() == 0 {
            return Err(DescriptorError::NoChunks);
        }
        Ok(())
    }
}

} // verus!
