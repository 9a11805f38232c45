//! Resuming a BitTorrent transfer: the state kept beside a partial file, and
//! which of the pieces it marks complete still hold their SHA-1.

use vstd::prelude::*;

use crate::codec::{hex_encode, hex_lower, sha1, sha1_digest};
use crate::descriptor::TargetDescriptor;
use crate::metadata::TorrentV1;
use crate::peer::{piece_length, piece_size, pieces_start_inside};
use crate::text::ascii_chars;

verus! {

pub const RESUME_FORMAT: &'static str = "shardmeld-bt-resume";

pub const RESUME_VERSION: u32 = 1;

/// Which pieces of a transfer are complete, and what transfer it belongs to.
#[derive(Debug, Clone, PartialEq, Eq)]
pub struct BtResumeState {
    pub format: String,
    pub version: u32,
    pub info_hash_sha1: String,
    pub target_sha256: String,
    pub target_bytes: u64,
    pub piece_length: u64,
    pub completed_pieces: Vec<bool>,
}

/// Why a resume state was refused.
#[derive(Debug, Clone, Copy, PartialEq, Eq, Structural)]
pub enum ResumeError {
    /// Another format or version.
    Format,
    /// The state belongs to another torrent or descriptor.
    Mismatch,
}

/// Whether a resume state belongs to a torrent and descriptor.
pub open spec fn resume_check(state: BtResumeState, torrent: TorrentV1, descriptor: TargetDescriptor) -> Result<(), ResumeError> {
    if state.format@ != RESUME_FORMAT@ || state.version != RESUME_VERSION {
        Err(ResumeError::Format)
    } else if state.info_hash_sha1@ != torrent.info_hash_sha1@ || state.target_sha256@
        != descriptor.target.sha256@ || state.target_bytes != torrent.total_length
        || state.piece_length != torrent.piece_length || state.completed_pieces@.len()
        != torrent.piece_sha1@.len() {
        Err(ResumeError::Mismatch)
    } else {
        Ok(())
    }
}

/// Checks that a resume state belongs to a torrent and descriptor.
pub fn validate_resume_state(state: &BtResumeState, torrent: &TorrentV1, descriptor: &TargetDescriptor) -> (result: Result<(), ResumeError>)
    ensures
        result == resume_check(*state, *torrent, *descriptor),
{
    if state.format != String::from_str(RESUME_FORMAT) || state.version != RESUME_VERSION {
        return Err(ResumeError::Format);
    }
    if state.info_hash_sha1 != torrent.info_hash_sha1 || state.target_sha256 != descriptor.target.sha256
        || state.target_bytes != torrent.total_length || state.piece_length != torrent.piece_length
        || state.completed_pieces.len() != torrent.piece_sha1.len() {
        return Err(ResumeError::Mismatch);
    }
    Ok(())
}

/// The state of a fresh transfer: no piece complete.
pub fn fresh_resume_state(torrent: &TorrentV1, descriptor: &TargetDescriptor) -> (state: BtResumeState)
    ensures
        resume_check(state, *torrent, *descriptor) is Ok,
        forall|i: int| 0 <= i < state.completed_pieces@.len() ==> !#[trigger] state.completed_pieces@[i],
{
    let mut completed: Vec<bool> = Vec::new();
    let mut i: usize = 0;
    while i < torrent.piece_sha1.len()
        invariant
            i <= torrent.piece_sha1@.len(),
            completed@.len() == i,
            forall|j: int| 0 <= j < i ==> !#[trigger] completed@[j],
        decreases torrent.piece_sha1@.len() - i,
    {
        completed.push(false);
        i = i + 1;
    }
    BtResumeState {
        format: String::from_str(RESUME_FORMAT),
        version: RESUME_VERSION,
        info_hash_sha1: torrent.info_hash_sha1.clone(),
        target_sha256: descriptor.target.sha256.clone(),
        target_bytes: torrent.total_length,
        piece_length: torrent.piece_length,
        completed_pieces: completed,
    }
}

/// Whether bytes are piece `index` of a torrent: their lower-case hex SHA-1
/// is the piece's.
pub fn piece_bytes_match(torrent: &TorrentV1, index: usize, bytes: &[u8]) -> (ok: bool)
    requires
        index < torrent.piece_sha1@.len(),
    ensures
        ok == (ascii_chars(hex_lower(sha1_digest(bytes@))) == torrent.piece_sha1@[index as int]@),
{
    let digest = sha1(bytes);
    hex_encode(&digest) == torrent.piece_sha1[index]
}

/// The bytes of piece `i` within the whole target.
pub open spec fn piece_bytes_of(t: TorrentV1, out: Seq<u8>, i: int) -> Seq<u8> {
    out.subrange(i * t.piece_length, i * t.piece_length + piece_size(t.total_length, t.piece_length, i))
}

/// Whether piece `i` of the whole target holds its SHA-1.
pub open spec fn piece_holds(t: TorrentV1, out: Seq<u8>, i: int) -> bool {
    ascii_chars(hex_lower(sha1_digest(piece_bytes_of(t, out, i)))) == t.piece_sha1@[i]@
}

/// The first piece of the whole target whose bytes fail their SHA-1, or
/// `None` when every piece holds.
pub fn first_failed_piece(torrent: &TorrentV1, output: &[u8]) -> (failed: Option<usize>)
    requires
        output@.len() == torrent.total_length,
        pieces_start_inside(*torrent),
    ensures
        match failed {
            None => forall|i: int| 0 <= i < torrent.piece_sha1@.len() ==> #[trigger] piece_holds(*torrent, output@, i),
            Some(i) => i < torrent.piece_sha1@.len() && !piece_holds(*torrent, output@, i as int) && forall|j: int|
                0 <= j < i ==> #[trigger] piece_holds(*torrent, output@, j),
        },
{
    let count = torrent.piece_sha1.len();
    let n = output.len();
    let mut i: usize = 0;
    while i < count
        invariant
            i <= count,
            count == torrent.piece_sha1@.len(),
            output@.len() == torrent.total_length,
            n == output@.len(),
            pieces_start_inside(*torrent),
            forall|j: int| 0 <= j < i ==> #[trigger] piece_holds(*torrent, output@, j),
        decreases count - i,
    {
        let pl = torrent.piece_length;
        assert(i * pl <= torrent.total_length) by (nonlinear_arith)
            requires
                i < count,
                count == 0 || (count - 1) * pl <= torrent.total_length,
        ;
        let offset = (i as u64) * pl;
        let length = match piece_length(torrent, i as u64) {
            Ok(l) => l,
            Err(_) => {
                return Some(i);
            },
        };
        assert(offset + length <= n);
        let start = offset as usize;
        let end = (offset + length) as usize;
        let bytes = vstd::slice::slice_subrange(output, start, end);
        assert(bytes@ == piece_bytes_of(*torrent, output@, i as int));
        if !piece_bytes_match(torrent, i, bytes) {
            return Some(i);
        }
        i = i + 1;
    }
    None
}

/// The maximum number of unexpected messages a peer may send during a
/// metadata exchange.
pub const MAX_UNEXPECTED_MESSAGES: usize = 256;

/// Counts one more unexpected message; refused past the limit.
pub fn count_unexpected(count: &mut usize) -> (within: bool)
    requires
        *old(count) <= MAX_UNEXPECTED_MESSAGES,
    ensures
        *final(count) == *old(count) + 1,
        within == (*final(count) <= MAX_UNEXPECTED_MESSAGES),
{
    *count = *count + 1;
    *count <= MAX_UNEXPECTED_MESSAGES
}

} // verus!
