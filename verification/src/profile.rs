//! Chunk size profiles for content-defined chunking.

use vstd::prelude::*;
use vstd::string::StringSliceAdditionalSpecFns;

use crate::bytes::{bytes_equal, to_upper, upper_bytes};

verus! {

/// Minimum, average and maximum chunk sizes in bytes.
#[derive(Debug, Clone, Copy, PartialEq, Eq, Structural)]
pub struct ChunkProfile {
    pub min_size: u32,
    pub avg_size: u32,
    pub max_size: u32,
}

/// Why a chunk profile was refused.
#[derive(Debug, Clone, Copy, PartialEq, Eq, Structural)]
pub enum ProfileError {
    /// Not `s`, `m` or `l` (or `small`, `medium`, `large`).
    UnknownName,
    /// Not `0 < min < avg < max`.
    Order,
    /// The average is not a power of two.
    AverageNotPowerOfTwo,
}

/// Whether `v` is a power of two.
pub open spec fn is_power_of_two(v: u32) -> bool {
    v != 0 && v & ((v - 1) as u32) == 0
}

/// What checking a profile gives.
pub open spec fn profile_check(p: ChunkProfile) -> Result<(), ProfileError> {
    if p.min_size == 0 || p.min_size >= p.avg_size || p.avg_size >= p.max_size {
        Err(ProfileError::Order)
    } else if !is_power_of_two(p.avg_size) {
        Err(ProfileError::AverageNotPowerOfTwo)
    } else {
        Ok(())
    }
}

/// The profile a (case-insensitive) name selects.
pub open spec fn named_profile(upper: Seq<u8>) -> Option<ChunkProfile> {
    if upper == "S".spec_bytes() || upper == "SMALL".spec_bytes() {
        Some(ChunkProfile { min_size: 8192, avg_size: 32768, max_size: 131072 })
    } else if upper == "M".spec_bytes() || upper == "MEDIUM".spec_bytes() {
        Some(ChunkProfile { min_size: 16384, avg_size: 65536, max_size: 262144 })
    } else if upper == "L".spec_bytes() || upper == "LARGE".spec_bytes() {
        Some(ChunkProfile { min_size: 65536, avg_size: 262144, max_size: 1048576 })
    } else {
        None
    }
}

impl ChunkProfile {
    /// The profile named `s`/`small`, `m`/`medium` or `l`/`large`, in any case.
    pub fn named(name: &str) -> (profile: Result<ChunkProfile, ProfileError>)
        ensures
            match named_profile(upper_bytes(name.spec_bytes())) {
                Some(p) => profile == Ok::<ChunkProfile, ProfileError>(p),
                None => profile == Err::<ChunkProfile, ProfileError>(ProfileError::UnknownName),
            },
    {
        let upper = to_upper(name.as_bytes());
        let u = upper.as_slice();
        let profile = if bytes_equal(u, "S".as_bytes()) || bytes_equal(u, "SMALL".as_bytes()) {
            ChunkProfile { min_size: 8192, avg_size: 32768, max_size: 131072 }
        } else if bytes_equal(u, "M".as_bytes()) || bytes_equal(u, "MEDIUM".as_bytes()) {
            ChunkProfile { min_size: 16384, avg_size: 65536, max_size: 262144 }
        } else if bytes_equal(u, "L".as_bytes()) || bytes_equal(u, "LARGE".as_bytes()) {
            ChunkProfile { min_size: 65536, avg_size: 262144, max_size: 1048576 }
        } else {
            return Err(ProfileError::UnknownName);
        };
        assert(is_power_of_two(32768u32)) by (bit_vector);
        assert(is_power_of_two(65536u32)) by (bit_vector);
        assert(is_power_of_two(262144u32)) by (bit_vector);
        match profile.validate() {
            Ok(()) => Ok(profile),
            Err(e) => Err(e),
        }
    }

    /// Checks `0 < min < avg < max` and that the average is a power of two.
    pub fn validate(&self) -> (result: Result<(), ProfileError>)
        ensures
            result == profile_check(*self),
    {
        if self.min_size == 0 || self.min_size >= self.avg_size || self.avg_size >= self.max_size {
            return Err(ProfileError::Order);
        }
        if self.avg_size & (self.avg_size - 1) != 0 {
            return Err(ProfileError::AverageNotPowerOfTwo);
        }
        Ok(())
    }
}

} // verus!
