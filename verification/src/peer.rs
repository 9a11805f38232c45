//! The BitTorrent peer wire: piece geometry, block requests, handshakes,
//! control messages, and the scheduler that shares piece work among peers.

use vstd::prelude::*;
use vstd::string::StringSliceAdditionalSpecFns;

use crate::bytes::push_slice;
use crate::codec::{hex_decode, hex_decoded};
use crate::metadata::TorrentV1;
use crate::tracker::{be_u32, push_be, read_u32};

verus! {

/// The size of a requested block (16 KiB).
pub const BLOCK_LENGTH: u64 = 16_384;

/// Requests kept in flight to one peer.
pub const MAX_INFLIGHT_REQUESTS: usize = 16;

/// Seconds without a message after which a peer counts as stalled.
pub const PEER_STALL_SECONDS: u64 = 5;

/// The most peers that fetch at the same time; more are taken in batches.
pub const MAX_CONCURRENT_PEERS: usize = 4;

/// Wire messages longer than this (2 MiB) are refused.
pub const MAX_MESSAGE_LENGTH: u32 = 2_097_152;

pub const MESSAGE_CHOKE: u8 = 0;
pub const MESSAGE_UNCHOKE: u8 = 1;
pub const MESSAGE_INTERESTED: u8 = 2;
pub const MESSAGE_NOT_INTERESTED: u8 = 3;
pub const MESSAGE_HAVE: u8 = 4;
pub const MESSAGE_BITFIELD: u8 = 5;
pub const MESSAGE_REQUEST: u8 = 6;
pub const MESSAGE_PIECE: u8 = 7;
pub const MESSAGE_CANCEL: u8 = 8;

/// The length of the overlap of `[left_start, left_end)` and `[right_start, right_end)`.
pub open spec fn overlap(left_start: u64, left_end: u64, right_start: u64, right_end: u64) -> int {
    let end = if left_end < right_end {
        left_end
    } else {
        right_end
    };
    let start = if left_start > right_start {
        left_start
    } else {
        right_start
    };
    if end > start {
        end - start
    } else {
        0
    }
}

pub fn overlap_length(left_start: u64, left_end: u64, right_start: u64, right_end: u64) -> (length:
    u64)
    ensures
        length == overlap(left_start, left_end, right_start, right_end),
{
    let end = if left_end < right_end {
        left_end
    } else {
        right_end
    };
    let start = if left_start > right_start {
        left_start
    } else {
        right_start
    };
    if end > start {
        end - start
    } else {
        0
    }
}

/// The length of piece `index`: the piece length, or what remains of the
/// data for the last piece (zero past the end).
pub open spec fn piece_size(total: u64, piece_length: u64, index: int) -> int {
    let offset = index * piece_length;
    let rest = if total >= offset {
        total - offset
    } else {
        0
    };
    if piece_length < rest {
        piece_length as int
    } else {
        rest
    }
}

/// Why a piece position was refused.
#[derive(Debug, Clone, Copy, PartialEq, Eq, Structural)]
pub enum PieceError {
    /// The piece's offset does not fit in 64 bits.
    OffsetOverflow,
    /// There are more pieces than 32-bit indices.
    TooManyPieces,
    /// A block offset does not fit in 32 bits.
    BlockOffsetTooLarge,
}

/// The length of piece `index` of a torrent.
pub fn piece_length(torrent: &TorrentV1, index: u64) -> (length: Result<u64, PieceError>)
    ensures
        length is Ok <==> index * torrent.piece_length <= u64::MAX,
        length matches Ok(l) ==> l == piece_size(torrent.total_length, torrent.piece_length, index as int),
        length matches Err(e) ==> e == PieceError::OffsetOverflow,
{
    let offset = match index.checked_mul(torrent.piece_length) {
        Some(offset) => offset,
        None => {
            return Err(PieceError::OffsetOverflow);
        },
    };
    let rest = if torrent.total_length >= offset {
        torrent.total_length - offset
    } else {
        0
    };
    Ok(
        if torrent.piece_length < rest {
            torrent.piece_length
        } else {
            rest
        },
    )
}


/// A byte range of the output that is already on disk.
#[derive(Debug, Clone, Copy, PartialEq, Eq, Structural)]
pub struct LocalRange {
    pub start: u64,
    pub end: u64,
}

/// A block to request from a peer.
#[derive(Debug, Clone, Copy, PartialEq, Eq, Structural)]
pub struct BlockRequest {
    pub piece_index: u32,
    pub begin: u32,
    pub length: u32,
    pub absolute_offset: u64,
}

/// Bytes of `[start, end)` covered by local ranges (overlaps counted once per range).
pub open spec fn covered(start: u64, end: u64, ranges: Seq<LocalRange>) -> int
    decreases ranges.len(),
{
    if ranges.len() == 0 {
        0
    } else {
        covered(start, end, ranges.drop_last()) + overlap(
            start,
            end,
            ranges.last().start,
            ranges.last().end,
        )
    }
}

/// The blocks of a piece from `begin` on that local data does not cover, as
/// (piece, begin, length, absolute offset).
pub open spec fn piece_needed(
    piece: u64,
    offset: u64,
    size: u64,
    ranges: Seq<LocalRange>,
    begin: u64,
) -> Seq<(u64, u64, u64, u64)>
    decreases size - begin,
{
    if begin >= size || offset + size > u64::MAX {
        Seq::empty()
    } else {
        let length = if BLOCK_LENGTH < size - begin {
            BLOCK_LENGTH
        } else {
            (size - begin) as u64
        };
        let start = (offset + begin) as u64;
        let rest = piece_needed(piece, offset, size, ranges, (begin + length) as u64);
        if covered(start, (start + length) as u64, ranges) < length {
            seq![(piece, begin, length, start)] + rest
        } else {
            rest
        }
    }
}

/// The uncovered blocks of the first `count` pieces.
pub open spec fn all_needed(total: u64, piece_length: u64, ranges: Seq<LocalRange>, count: int) -> Seq<
    (u64, u64, u64, u64),
>
    decreases count,
{
    if count <= 0 {
        Seq::empty()
    } else {
        let i = count - 1;
        all_needed(total, piece_length, ranges, i) + piece_needed(
            i as u64,
            (i * piece_length) as u64,
            piece_size(total, piece_length, i) as u64,
            ranges,
            0,
        )
    }
}

/// Whether a block cannot be put in a request's 32-bit fields.
pub open spec fn block_unrepresentable(b: (u64, u64, u64, u64)) -> bool {
    b.0 > u32::MAX || b.1 > u32::MAX
}

/// The first block that cannot be put in a request, or `s.len()`.
pub open spec fn first_unrepresentable(s: Seq<(u64, u64, u64, u64)>) -> int
    decreases s.len(),
{
    if s.len() == 0 {
        0
    } else if block_unrepresentable(s[0]) {
        0
    } else {
        1 + first_unrepresentable(s.drop_first())
    }
}

proof fn lemma_first_unrepresentable(s: Seq<(u64, u64, u64, u64)>, k: int)
    requires
        0 <= k <= s.len(),
        forall|j: int| 0 <= j < k ==> !block_unrepresentable(#[trigger] s[j]),
        k < s.len() ==> block_unrepresentable(s[k]),
    ensures
        first_unrepresentable(s) == k,
    decreases k,
{
    if k > 0 {
        let t = s.drop_first();
        assert forall|j: int| 0 <= j < k - 1 implies !block_unrepresentable(#[trigger] t[j]) by {
            assert(t[j] == s[j + 1]);
        }
        lemma_first_unrepresentable(t, k - 1);
    }
}

/// The block requests for a torrent: every block not fully covered by local data.
pub open spec fn block_requests_of(
    total: u64,
    piece_length: u64,
    piece_count: int,
    ranges: Seq<LocalRange>,
) -> Result<Seq<BlockRequest>, PieceError> {
    let needed = all_needed(total, piece_length, ranges, piece_count);
    let k = first_unrepresentable(needed);
    if k < needed.len() {
        if needed[k].0 > u32::MAX {
            Err(PieceError::TooManyPieces)
        } else {
            Err(PieceError::BlockOffsetTooLarge)
        }
    } else {
        Ok(
            needed.map_values(
                |b: (u64, u64, u64, u64)|
                    BlockRequest {
                        piece_index: b.0 as u32,
                        begin: b.1 as u32,
                        length: b.2 as u32,
                        absolute_offset: b.3,
                    },
            ),
        )
    }
}

/// Bytes of `[start, end)` covered by the local ranges.
fn covered_bytes(start: u64, end: u64, ranges: &[LocalRange]) -> (total: u128)
    ensures
        total == covered(start, end, ranges@),
{
    let mut total: u128 = 0;
    let mut i: usize = 0;
    while i < ranges.len()
        invariant
            i <= ranges@.len(),
            total == covered(start, end, ranges@.subrange(0, i as int)),
            total <= i * 0xffff_ffff_ffff_ffffu128,
        decreases ranges@.len() - i,
    {
        assert(ranges@.subrange(0, i + 1).drop_last() =~= ranges@.subrange(0, i as int));
        let o = overlap_length(start, end, ranges[i].start, ranges[i].end);
        assert(i * 0xffff_ffff_ffff_ffffu128 + 0xffff_ffff_ffff_ffffu128 <= u128::MAX) by (nonlinear_arith)
            requires
                i <= usize::MAX,
        ;
        total = total + o as u128;
        i = i + 1;
    }
    assert(ranges@.subrange(0, ranges@.len() as int) =~= ranges@);
    total
}

/// Whether every piece of a torrent starts inside its data.
pub open spec fn pieces_start_inside(torrent: TorrentV1) -> bool {
    torrent.piece_sha1@.len() == 0 || (torrent.piece_sha1@.len() - 1) * torrent.piece_length
        <= torrent.total_length
}

/// Checks that every piece of a torrent starts inside its target.
pub fn check_pieces_start_inside(torrent: &TorrentV1) -> (inside: bool)
    ensures
        inside == pieces_start_inside(*torrent),
{
    let count = torrent.piece_sha1.len();
    if count == 0 {
        return true;
    }
    let last = (count - 1) as u128;
    let pl = torrent.piece_length as u128;
    assert(last * pl <= 0xffff_ffff_ffff_ffffu128 * 0xffff_ffff_ffff_ffffu128) by (nonlinear_arith)
        requires
            last <= 0xffff_ffff_ffff_ffffu128,
            pl <= 0xffff_ffff_ffff_ffffu128,
    ;
    last * pl <= torrent.total_length as u128
}

/// The payload received beyond what was missing.
pub fn redundant_bytes(received: u64, missing: u64) -> (redundant: u64)
    ensures
        redundant == if received > missing { received - missing } else { 0 },
{
    if received > missing {
        received - missing
    } else {
        0
    }
}

/// The uncovered blocks of one piece from `begin` on, appended to `needed`.
fn push_piece_needed(
    needed: &mut Vec<(u64, u64, u64, u64)>,
    piece: u64,
    offset: u64,
    size: u64,
    ranges: &[LocalRange],
)
    requires
        offset + size <= u64::MAX,
    ensures
        final(needed)@ == old(needed)@ + piece_needed(piece, offset, size, ranges@, 0),
{
    let ghost start_seq = needed@;
    let ghost whole = piece_needed(piece, offset, size, ranges@, 0);
    let mut begin: u64 = 0;
    assert(start_seq + Seq::<(u64, u64, u64, u64)>::empty() =~= start_seq);
    assert(whole =~= Seq::<(u64, u64, u64, u64)>::empty() + piece_needed(
        piece,
        offset,
        size,
        ranges@,
        begin,
    ));
    let ghost mut partial: Seq<(u64, u64, u64, u64)> = Seq::empty();
    while begin < size
        invariant
            offset + size <= u64::MAX,
            begin <= size,
            whole == piece_needed(piece, offset, size, ranges@, 0),
            whole == partial + piece_needed(piece, offset, size, ranges@, begin),
            needed@ == start_seq + partial,
        decreases size - begin,
    {
        let length = if BLOCK_LENGTH < size - begin {
            BLOCK_LENGTH
        } else {
            size - begin
        };
        let block_start = offset + begin;
        let c = covered_bytes(block_start, block_start + length, ranges);
        let ghost rest = piece_needed(piece, offset, size, ranges@, (begin + length) as u64);
        if c < length as u128 {
            needed.push((piece, begin, length, block_start));
            proof {
                assert(whole =~= partial.push((piece, begin, length, block_start)) + rest);
                partial = partial.push((piece, begin, length, block_start));
            }
        }
        begin = begin + length;
    }
    proof {
        assert(piece_needed(piece, offset, size, ranges@, begin) =~= Seq::empty());
        assert(partial + Seq::<(u64, u64, u64, u64)>::empty() =~= partial);
    }
}

/// The blocks still to fetch: every block of every piece that local data
/// does not fully cover, in piece and offset order.
pub fn build_block_requests(torrent: &TorrentV1, local_ranges: &[LocalRange]) -> (requests: Result<
    Vec<BlockRequest>,
    PieceError,
>)
    requires
        pieces_start_inside(*torrent),
    ensures
        match requests {
            Ok(r) => block_requests_of(
                torrent.total_length,
                torrent.piece_length,
                torrent.piece_sha1@.len() as int,
                local_ranges@,
            ) == Ok::<Seq<BlockRequest>, PieceError>(r@),
            Err(e) => block_requests_of(
                torrent.total_length,
                torrent.piece_length,
                torrent.piece_sha1@.len() as int,
                local_ranges@,
            ) == Err::<Seq<BlockRequest>, PieceError>(e),
        },
{
    let count = torrent.piece_sha1.len();
    let total = torrent.total_length;
    let pl = torrent.piece_length;
    let mut needed: Vec<(u64, u64, u64, u64)> = Vec::new();
    let mut p: usize = 0;
    while p < count
        invariant
            count == torrent.piece_sha1@.len(),
            total == torrent.total_length,
            pl == torrent.piece_length,
            pieces_start_inside(*torrent),
            p <= count,
            needed@ == all_needed(total, pl, local_ranges@, p as int),
        decreases count - p,
    {
        assert(p * pl <= total) by (nonlinear_arith)
            requires
                p < count,
                (count - 1) * pl <= total,
        ;
        let offset = (p as u64) * pl;
        let rest = total - offset;
        let size = if pl < rest {
            pl
        } else {
            rest
        };
        push_piece_needed(&mut needed, p as u64, offset, size, local_ranges);
        p = p + 1;
    }
    let ghost all = needed@;
    let mut requests: Vec<BlockRequest> = Vec::new();
    let mut k: usize = 0;
    while k < needed.len()
        invariant
            all == needed@,
            all == all_needed(
                torrent.total_length,
                torrent.piece_length,
                local_ranges@,
                torrent.piece_sha1@.len() as int,
            ),
            k <= all.len(),
            requests@.len() == k,
            forall|j: int| 0 <= j < k ==> !block_unrepresentable(#[trigger] all[j]),
            forall|j: int|
                0 <= j < k ==> #[trigger] requests@[j] == (BlockRequest {
                    piece_index: all[j].0 as u32,
                    begin: all[j].1 as u32,
                    length: all[j].2 as u32,
                    absolute_offset: all[j].3,
                }),
        decreases all.len() - k,
    {
        let (piece, begin, length, start) = needed[k];
        if piece > u32::MAX as u64 {
            proof {
                lemma_first_unrepresentable(all, k as int);
            }
            return Err(PieceError::TooManyPieces);
        }
        if begin > u32::MAX as u64 {
            proof {
                lemma_first_unrepresentable(all, k as int);
            }
            return Err(PieceError::BlockOffsetTooLarge);
        }
        requests.push(
            BlockRequest {
                piece_index: piece as u32,
                begin: begin as u32,
                length: length as u32,
                absolute_offset: start,
            },
        );
        k = k + 1;
    }
    proof {
        lemma_first_unrepresentable(all, all.len() as int);
        assert(requests@ =~= all.map_values(
            |b: (u64, u64, u64, u64)|
                BlockRequest {
                    piece_index: b.0 as u32,
                    begin: b.1 as u32,
                    length: b.2 as u32,
                    absolute_offset: b.3,
                },
        ));
    }
    Ok(requests)
}


/// The blocks of one piece that one claim fetches.
#[derive(Debug)]
pub struct PieceJob {
    pub piece_index: u32,
    pub requests: Vec<BlockRequest>,
    pub attempt: u32,
    pub endgame_duplicate: bool,
}

/// A piece job as mathematics.
pub struct JobModel {
    pub piece_index: u32,
    pub requests: Seq<BlockRequest>,
    pub attempt: u32,
    pub endgame_duplicate: bool,
}

impl View for PieceJob {
    type V = JobModel;

    open spec fn view(&self) -> JobModel {
        JobModel {
            piece_index: self.piece_index,
            requests: self.requests@,
            attempt: self.attempt,
            endgame_duplicate: self.endgame_duplicate,
        }
    }
}

pub open spec fn jobs_view(jobs: Seq<PieceJob>) -> Seq<JobModel> {
    jobs.map_values(|j: PieceJob| j@)
}

/// Requests grouped into one job per run of the same piece.
pub open spec fn piece_jobs_of(requests: Seq<BlockRequest>) -> Seq<JobModel>
    decreases requests.len(),
{
    if requests.len() == 0 {
        Seq::empty()
    } else {
        let prev = piece_jobs_of(requests.drop_last());
        let r = requests.last();
        if prev.len() > 0 && prev.last().piece_index == r.piece_index {
            prev.update(
                prev.len() - 1,
                JobModel { requests: prev.last().requests.push(r), ..prev.last() },
            )
        } else {
            prev.push(
                JobModel {
                    piece_index: r.piece_index,
                    requests: seq![r],
                    attempt: 0,
                    endgame_duplicate: false,
                },
            )
        }
    }
}

impl PieceJob {
    /// A copy of the job.
    pub fn duplicate(&self) -> (copy: PieceJob)
        ensures
            copy@ == self@,
    {
        let mut requests: Vec<BlockRequest> = Vec::new();
        let mut i: usize = 0;
        while i < self.requests.len()
            invariant
                i <= self.requests@.len(),
                requests@ == self.requests@.subrange(0, i as int),
            decreases self.requests@.len() - i,
        {
            requests.push(self.requests[i]);
            assert(self.requests@.subrange(0, i + 1) =~= self.requests@.subrange(0, i as int).push(
                self.requests@[i as int],
            ));
            i = i + 1;
        }
        assert(self.requests@.subrange(0, self.requests@.len() as int) =~= self.requests@);
        PieceJob {
            piece_index: self.piece_index,
            requests,
            attempt: self.attempt,
            endgame_duplicate: self.endgame_duplicate,
        }
    }
}

/// Groups block requests into piece jobs, one per run of the same piece.
pub fn build_piece_jobs(requests: &[BlockRequest]) -> (jobs: Vec<PieceJob>)
    ensures
        jobs_view(jobs@) == piece_jobs_of(requests@),
{
    let mut jobs: Vec<PieceJob> = Vec::new();
    let mut current: Option<PieceJob> = None;
    let mut i: usize = 0;
    assert(requests@.subrange(0, 0) =~= Seq::<BlockRequest>::empty());
    assert(jobs_view(jobs@) =~= Seq::<JobModel>::empty());
    while i < requests.len()
        invariant
            i <= requests@.len(),
            piece_jobs_of(requests@.subrange(0, i as int)) == match current {
                Some(c) => jobs_view(jobs@).push(c@),
                None => jobs_view(jobs@),
            },
            i > 0 <==> current is Some,
        decreases requests@.len() - i,
    {
        let r = requests[i];
        assert(requests@.subrange(0, i + 1).drop_last() =~= requests@.subrange(0, i as int));
        assert(requests@.subrange(0, i + 1).last() == r);
        match current {
            Some(mut job) => {
                if job.piece_index == r.piece_index {
                    let ghost before = job@;
                    job.requests.push(r);
                    assert(job@ == JobModel { requests: before.requests.push(r), ..before });
                    assert(jobs_view(jobs@).push(before).update(
                        jobs_view(jobs@).len() as int,
                        JobModel { requests: before.requests.push(r), ..before },
                    ) =~= jobs_view(jobs@).push(job@));
                    current = Some(job);
                } else {
                    let ghost before = jobs_view(jobs@);
                    jobs.push(job);
                    assert(jobs_view(jobs@) =~= before.push(job@));
                    let mut fresh: Vec<BlockRequest> = Vec::new();
                    fresh.push(r);
                    current = Some(
                        PieceJob {
                            piece_index: r.piece_index,
                            requests: fresh,
                            attempt: 0,
                            endgame_duplicate: false,
                        },
                    );
                }
            },
            None => {
                let mut fresh: Vec<BlockRequest> = Vec::new();
                fresh.push(r);
                current = Some(
                    PieceJob {
                        piece_index: r.piece_index,
                        requests: fresh,
                        attempt: 0,
                        endgame_duplicate: false,
                    },
                );
            },
        }
        i = i + 1;
    }
    assert(requests@.subrange(0, requests@.len() as int) =~= requests@);
    match current {
        Some(job) => {
            let ghost before = jobs_view(jobs@);
            jobs.push(job);
            assert(jobs_view(jobs@) =~= before.push(job@));
        },
        None => {},
    }
    jobs
}

/// Why a peer's message was refused.
#[derive(Debug, Clone, Copy, PartialEq, Eq, Structural)]
pub enum WireError {
    /// A choke or unchoke message with a payload.
    MalformedChoke,
    /// A HAVE message whose payload is not four bytes.
    MalformedHave,
    /// A HAVE index outside the torrent.
    HaveOutOfRange,
    /// A bitfield of the wrong length.
    BitfieldLength,
    /// A bitfield with spare bits set.
    BitfieldSpareBits,
    /// The torrent's info-hash is not 40 hex digits.
    InfoHash,
    /// The peer's handshake has the wrong protocol header.
    ProtocolHeader,
    /// The peer's handshake names another torrent.
    WrongInfoHash,
    /// A message longer than the limit.
    Oversized,
    /// A PIECE message shorter than its header.
    MalformedPiece,
    /// A block that was not requested, or was already received.
    UnrequestedBlock,
    /// A block of the wrong length.
    BlockLength,
    /// A block outside its piece.
    BlockOutsidePiece,
    /// A REQUEST or CANCEL whose payload is not twelve bytes.
    MalformedRequest,
    /// A requested block of length zero or above the block size.
    InvalidBlockLength,
    /// A requested piece outside the torrent.
    PieceOutsideTorrent,
    /// A requested piece whose offset does not fit in 64 bits.
    PieceOffsetOverflow,
}

/// Whether bit `i` of a bitfield is set (most significant bit first).
pub open spec fn bitfield_bit(payload: Seq<u8>, i: int) -> bool {
    ((payload[i / 8] >> ((7 - i % 8) as u8)) & 1u8) == 1u8
}

/// The bitfield length for `n` pieces.
pub open spec fn bitfield_length(n: int) -> int {
    (n + 7) / 8
}

/// Whether the bits past the last piece are set.
pub open spec fn spare_bits_set(payload: Seq<u8>, n: int) -> bool {
    let spare = payload.len() * 8 - n;
    spare > 0 && payload.last() as int % (vstd::arithmetic::power2::pow2(spare as nat) as int) != 0
}

/// What reading a bitfield does: a payload of the wrong length is refused
/// and changes nothing; otherwise each piece takes its bit, and the read is
/// refused after all when a bit past the last piece is set.
pub open spec fn bitfield_read(
    payload: Seq<u8>,
    before: Seq<bool>,
    after: Seq<bool>,
    result: Result<(), WireError>,
) -> bool {
    &&& payload.len() != bitfield_length(before.len() as int) ==> result == Err::<(), WireError>(
        WireError::BitfieldLength,
    ) && after == before
    &&& payload.len() == bitfield_length(before.len() as int) ==> {
        &&& after.len() == before.len()
        &&& forall|i: int| 0 <= i < after.len() ==> #[trigger] after[i] == bitfield_bit(payload, i)
        &&& result == if spare_bits_set(payload, before.len() as int) {
            Err::<(), WireError>(WireError::BitfieldSpareBits)
        } else {
            Ok(())
        }
    }
}

/// Reads a peer's bitfield into the availability of each piece.
pub fn apply_bitfield(payload: &[u8], availability: &mut Vec<bool>) -> (result: Result<(), WireError>)
    ensures
        bitfield_read(payload@, old(availability)@, final(availability)@, result),
{
    let n = availability.len();
    let expected = n / 8 + if n % 8 == 0 {
        0
    } else {
        1
    };
    assert(expected == bitfield_length(n as int));
    if payload.len() != expected {
        return Err(WireError::BitfieldLength);
    }
    let mut i: usize = 0;
    while i < n
        invariant
            n == availability@.len(),
            payload@.len() == bitfield_length(n as int),
            i <= n,
            forall|j: int| 0 <= j < i ==> #[trigger] availability@[j] == bitfield_bit(payload@, j),
        decreases n - i,
    {
        assert(i / 8 < payload@.len());
        let shift = (7 - i % 8) as u8;
        let bit = (payload[i / 8] >> shift) & 1u8;
        availability.set(i, bit == 1u8);
        i = i + 1;
    }
    let spare: usize = if n % 8 == 0 {
        0
    } else {
        8 - n % 8
    };
    assert(spare == payload@.len() * 8 - n);
    if spare > 0 {
        let last = payload[payload.len() - 1];
        let s = spare as u8;
        assert((1u8 << s) >= 1) by (bit_vector)
            requires
                s < 8,
        ;
        let mask = (1u8 << s) - 1;
        proof {
            assert(s < 8);
            assert(last & (((1u8 << s) - 1) as u8) == last % (1u8 << s)) by (bit_vector)
                requires
                    s < 8,
            ;
            assert((1u8 << s) == vstd::arithmetic::power2::pow2(s as nat)) by {
                vstd::arithmetic::power2::lemma_pow2(s as nat);
                lemma_shl_pow2(s);
            }
        }
        if last & mask != 0 {
            return Err(WireError::BitfieldSpareBits);
        }
    }
    Ok(())
}

pub(crate) proof fn lemma_shl_pow2(s: u8)
    requires
        s < 8,
    ensures
        (1u8 << s) as int == vstd::arithmetic::power2::pow2(s as nat),
{
    vstd::arithmetic::power2::lemma2_to64();
    if s == 0 {
        assert((1u8 << 0u8) == 1) by (bit_vector);
    } else if s == 1 {
        assert((1u8 << 1u8) == 2) by (bit_vector);
    } else if s == 2 {
        assert((1u8 << 2u8) == 4) by (bit_vector);
    } else if s == 3 {
        assert((1u8 << 3u8) == 8) by (bit_vector);
    } else if s == 4 {
        assert((1u8 << 4u8) == 16) by (bit_vector);
    } else if s == 5 {
        assert((1u8 << 5u8) == 32) by (bit_vector);
    } else if s == 6 {
        assert((1u8 << 6u8) == 64) by (bit_vector);
    } else {
        assert((1u8 << 7u8) == 128) by (bit_vector);
    }
}


/// Applies a control message (choke, unchoke, have, bitfield) to a peer's
/// state; other messages change nothing.
pub fn process_control_message(
    message_id: u8,
    payload: &[u8],
    availability: &mut Vec<bool>,
    availability_received: &mut bool,
    choked: &mut bool,
) -> (result: Result<(), WireError>)
    ensures
        message_id == MESSAGE_CHOKE ==> if payload@.len() == 0 {
            result is Ok && *final(choked) && final(availability)@ == old(availability)@
                && *final(availability_received) == *old(availability_received)
        } else {
            result == Err::<(), WireError>(WireError::MalformedChoke)
        },
        message_id == MESSAGE_UNCHOKE ==> if payload@.len() == 0 {
            result is Ok && !*final(choked) && final(availability)@ == old(availability)@
                && *final(availability_received) == *old(availability_received)
        } else {
            result == Err::<(), WireError>(WireError::MalformedChoke)
        },
        message_id == MESSAGE_HAVE ==> {
            let index = be_u32(payload@[0], payload@[1], payload@[2], payload@[3]);
            if payload@.len() != 4 {
                result == Err::<(), WireError>(WireError::MalformedHave)
            } else if index >= old(availability)@.len() {
                result == Err::<(), WireError>(WireError::HaveOutOfRange)
            } else {
                &&& result is Ok
                &&& final(availability)@ == old(availability)@.update(index as int, true)
                &&& *final(availability_received)
                &&& *final(choked) == *old(choked)
            }
        },
        message_id == MESSAGE_BITFIELD ==> {
            &&& *final(choked) == *old(choked)
            &&& payload@.len() == bitfield_length(old(availability)@.len() as int) ==> {
                &&& final(availability)@.len() == old(availability)@.len()
                &&& forall|i: int|
                    0 <= i < final(availability)@.len() ==> #[trigger] final(availability)@[i]
                        == bitfield_bit(payload@, i)
                &&& result == if spare_bits_set(payload@, old(availability)@.len() as int) {
                    Err::<(), WireError>(WireError::BitfieldSpareBits)
                } else {
                    Ok(())
                }
                &&& result is Ok ==> *final(availability_received)
            }
            &&& payload@.len() != bitfield_length(old(availability)@.len() as int) ==> result
                == Err::<(), WireError>(WireError::BitfieldLength)
        },
        (message_id != MESSAGE_CHOKE && message_id != MESSAGE_UNCHOKE && message_id != MESSAGE_HAVE
            && message_id != MESSAGE_BITFIELD) ==> {
            &&& result is Ok
            &&& final(availability)@ == old(availability)@
            &&& *final(availability_received) == *old(availability_received)
            &&& *final(choked) == *old(choked)
        },
{
    if message_id == MESSAGE_CHOKE {
        if payload.len() != 0 {
            return Err(WireError::MalformedChoke);
        }
        *choked = true;
    } else if message_id == MESSAGE_UNCHOKE {
        if payload.len() != 0 {
            return Err(WireError::MalformedChoke);
        }
        *choked = false;
    } else if message_id == MESSAGE_HAVE {
        if payload.len() != 4 {
            return Err(WireError::MalformedHave);
        }
        let index = read_u32(payload, 0) as usize;
        if index >= availability.len() {
            return Err(WireError::HaveOutOfRange);
        }
        availability.set(index, true);
        *availability_received = true;
    } else if message_id == MESSAGE_BITFIELD {
        match apply_bitfield(payload, availability) {
            Ok(()) => {},
            Err(e) => {
                return Err(e);
            },
        }
        *availability_received = true;
    }
    Ok(())
}

/// The protocol name in every BitTorrent handshake.
pub open spec fn protocol_name() -> Seq<u8> {
    "BitTorrent protocol".spec_bytes()
}

/// A handshake: the protocol name with its length, eight reserved zero
/// bytes, the info-hash and the peer id.
pub open spec fn handshake_of(info_hash: Seq<u8>, peer_id: Seq<u8>) -> Seq<u8> {
    seq![19u8] + protocol_name() + Seq::new(8, |i: int| 0u8) + info_hash + peer_id
}

/// The handshake to send for a torrent whose info-hash is `info_hash_hex`.
pub fn handshake_for(info_hash_hex: &str, peer_id: &[u8; 20]) -> (handshake: Result<
    Vec<u8>,
    WireError,
>)
    ensures
        handshake matches Ok(h) ==> exists|hash: Seq<u8>|
            #![auto]
            hex_decoded(info_hash_hex.spec_bytes()) == Some(hash) && hash.len() == 20 && h@
                == handshake_of(hash, peer_id@),
        handshake is Err <==> match hex_decoded(info_hash_hex.spec_bytes()) {
            Some(hash) => hash.len() != 20,
            None => true,
        },
{
    let hash = match hex_decode(info_hash_hex.as_bytes()) {
        Some(hash) => hash,
        None => {
            return Err(WireError::InfoHash);
        },
    };
    if hash.len() != 20 {
        return Err(WireError::InfoHash);
    }
    let mut out: Vec<u8> = Vec::new();
    out.push(19);
    crate::bytes::push_str_bytes(&mut out, "BitTorrent protocol");
    let mut k: usize = 0;
    let ghost base = out@;
    while k < 8
        invariant
            k <= 8,
            out@ == base + Seq::new(k as nat, |i: int| 0u8),
        decreases 8 - k,
    {
        out.push(0);
        assert(base + Seq::new((k + 1) as nat, |i: int| 0u8) =~= (base + Seq::new(
            k as nat,
            |i: int| 0u8,
        )).push(0));
        k = k + 1;
    }
    push_slice(&mut out, hash.as_slice());
    push_slice(&mut out, peer_id.as_slice());
    assert(out@ =~= handshake_of(hash@, peer_id@));
    Ok(out)
}

/// Checks a peer's 68-byte handshake against the protocol and the torrent's
/// info-hash, and reads its reserved bytes and peer id.
pub fn check_handshake(handshake: &[u8], expected_info_hash: &[u8]) -> (remote: Result<
    (Vec<u8>, Vec<u8>),
    WireError,
>)
    requires
        handshake@.len() == 68,
    ensures
        remote is Ok <==> (handshake@.subrange(0, 20) == seq![19u8] + protocol_name()
            && handshake@.subrange(28, 48) == expected_info_hash@),
        remote matches Ok((reserved, peer_id)) ==> reserved@ == handshake@.subrange(20, 28)
            && peer_id@ == handshake@.subrange(48, 68),
        remote matches Err(e) ==> if handshake@.subrange(0, 20) != seq![19u8] + protocol_name() {
            e == WireError::ProtocolHeader
        } else {
            e == WireError::WrongInfoHash
        },
{
    let mut header: Vec<u8> = Vec::new();
    header.push(19);
    crate::bytes::push_str_bytes(&mut header, "BitTorrent protocol");
    if !crate::bytes::bytes_equal(&handshake[0..20], header.as_slice()) {
        return Err(WireError::ProtocolHeader);
    }
    if !crate::bytes::bytes_equal(&handshake[28..48], expected_info_hash) {
        return Err(WireError::WrongInfoHash);
    }
    let mut reserved: Vec<u8> = Vec::new();
    push_slice(&mut reserved, &handshake[20..28]);
    let mut peer_id: Vec<u8> = Vec::new();
    push_slice(&mut peer_id, &handshake[48..68]);
    Ok((reserved, peer_id))
}

/// A wire message: its length (the id byte and the payload) in four bytes,
/// the id, and the payload.
pub fn frame_message(message_id: u8, payload: &[u8]) -> (frame: Option<Vec<u8>>)
    ensures
        frame is Some <==> payload@.len() + 1 <= u32::MAX,
        frame matches Some(f) ==> f@ == crate::tracker::be_bytes((payload@.len() + 1) as nat, 4)
            + seq![message_id] + payload@,
{
    if payload.len() >= u32::MAX as usize {
        return None;
    }
    let mut out: Vec<u8> = Vec::new();
    push_be(&mut out, (payload.len() + 1) as u64, 4);
    out.push(message_id);
    push_slice(&mut out, payload);
    Some(out)
}

/// What the length prefix of an incoming message means.
#[derive(Debug, Clone, Copy, PartialEq, Eq, Structural)]
pub enum MessageLength {
    /// A keep-alive: no message follows.
    KeepAlive,
    /// A message of this many bytes follows.
    Body(u32),
}

/// Reads the length prefix of an incoming message.
pub fn message_length(prefix: &[u8]) -> (length: Result<MessageLength, WireError>)
    requires
        prefix@.len() == 4,
    ensures
        ({
            let n = be_u32(prefix@[0], prefix@[1], prefix@[2], prefix@[3]);
            length == if n == 0 {
                Ok::<MessageLength, WireError>(MessageLength::KeepAlive)
            } else if n > MAX_MESSAGE_LENGTH {
                Err(WireError::Oversized)
            } else {
                Ok(MessageLength::Body(n))
            }
        }),
{
    let n = read_u32(prefix, 0);
    if n == 0 {
        Ok(MessageLength::KeepAlive)
    } else if n > MAX_MESSAGE_LENGTH {
        Err(WireError::Oversized)
    } else {
        Ok(MessageLength::Body(n))
    }
}

/// The payload of a REQUEST or CANCEL message for a block.
pub fn request_payload(request: BlockRequest) -> (payload: Vec<u8>)
    ensures
        payload@ == crate::tracker::be_bytes(request.piece_index as nat, 4) + crate::tracker::be_bytes(
            request.begin as nat,
            4,
        ) + crate::tracker::be_bytes(request.length as nat, 4),
{
    let mut out: Vec<u8> = Vec::new();
    push_be(&mut out, request.piece_index as u64, 4);
    push_be(&mut out, request.begin as u64, 4);
    push_be(&mut out, request.length as u64, 4);
    out
}


/// A piece job that peers are working on.
#[derive(Debug)]
pub struct ActivePieceJob {
    pub job: PieceJob,
    pub claims: u64,
    pub completed: bool,
}

/// The shared state from which peers claim piece jobs.
#[derive(Debug)]
pub struct SchedulerState {
    pub queue: Vec<PieceJob>,
    pub active: Vec<ActivePieceJob>,
    pub pieces_reassigned: u64,
    pub endgame_duplicate_pieces: u64,
    pub endgame_cancelled_jobs: u64,
    pub pending_peer_registrations: usize,
    pub availability_counts: Vec<u16>,
}

/// An active job as mathematics.
pub struct ActiveModel {
    pub job: JobModel,
    pub claims: u64,
    pub completed: bool,
}

pub open spec fn active_view(active: Seq<ActivePieceJob>) -> Seq<ActiveModel> {
    active.map_values(|a: ActivePieceJob| ActiveModel { job: a.job@, claims: a.claims, completed: a.completed })
}

/// What a claim gives a peer.
#[derive(Debug)]
pub enum Claim {
    /// A job to fetch.
    Job(PieceJob),
    /// Nothing the peer can fetch now, but other peers are still working.
    Wait,
    /// Nothing is left to fetch.
    Done,
}

/// The job a claim gives, if any.
pub open spec fn claimed_job(claim: Claim) -> Option<JobModel> {
    match claim {
        Claim::Job(j) => Some(j@),
        _ => None,
    }
}

/// Whether the peer has the piece.
pub open spec fn has_piece(availability: Seq<bool>, piece: u32) -> bool {
    piece < availability.len() && availability[piece as int]
}

/// The rarity of a piece: how many peers have it (the most when unknown).
pub open spec fn rarity(counts: Seq<u16>, piece: u32) -> u16 {
    if piece < counts.len() {
        counts[piece as int]
    } else {
        u16::MAX
    }
}

/// Whether job `a` comes before or with job `b`: rarer pieces first, then
/// more attempted ones, then lower piece indices.
pub open spec fn claim_order_le(counts: Seq<u16>, a: JobModel, b: JobModel) -> bool {
    let ra = rarity(counts, a.piece_index);
    let rb = rarity(counts, b.piece_index);
    ra < rb || (ra == rb && (a.attempt > b.attempt || (a.attempt == b.attempt && a.piece_index
        <= b.piece_index)))
}

/// Position `p` holds the first of the peer's claimable queued jobs in claim order.
pub open spec fn best_queued(queue: Seq<JobModel>, counts: Seq<u16>, availability: Seq<bool>, p: int) -> bool {
    &&& 0 <= p < queue.len()
    &&& has_piece(availability, queue[p].piece_index)
    &&& forall|q: int|
        0 <= q < queue.len() && has_piece(availability, #[trigger] queue[q].piece_index)
            ==> claim_order_le(counts, queue[p], queue[q])
    &&& forall|q: int|
        0 <= q < p && has_piece(availability, #[trigger] queue[q].piece_index) ==> !claim_order_le(
            counts,
            queue[q],
            queue[p],
        )
}

/// An active job another peer alone works on that this peer could duplicate.
pub open spec fn duplicable(a: ActiveModel, availability: Seq<bool>) -> bool {
    !a.completed && a.claims == 1 && has_piece(availability, a.job.piece_index)
}

/// Position `p` holds the first duplicable active job of lowest piece index.
pub open spec fn best_duplicate(active: Seq<ActiveModel>, availability: Seq<bool>, p: int) -> bool {
    &&& 0 <= p < active.len()
    &&& duplicable(active[p], availability)
    &&& forall|q: int|
        0 <= q < active.len() && duplicable(#[trigger] active[q], availability)
            ==> active[p].job.piece_index <= active[q].job.piece_index
    &&& forall|q: int|
        0 <= q < p && duplicable(#[trigger] active[q], availability) ==> active[p].job.piece_index
            < active[q].job.piece_index
}

/// What finishing a job does to a scheduler and answers: an unknown job or
/// a job with no claim left is refused and changes nothing; otherwise one
/// claim is dropped, the first success marks the piece completed, and a job
/// whose last claim ends without the piece completed goes back to the queue.
pub open spec fn finish_effect(
    before: SchedulerState,
    after: SchedulerState,
    job: PieceJob,
    outcome: PieceJobOutcome,
    first: Result<bool, SchedulerError>,
) -> bool {
    &&& {
        let active = active_view(before.active@);
        let queue = jobs_view(before.queue@);
        let p = active_position(active, job.piece_index);
        if p >= active.len() {
            first == Err::<bool, SchedulerError>(SchedulerError::UnknownJob)
                && after.active@ == before.active@
                && after.queue@ == before.queue@
        } else if active[p].claims == 0 {
            first == Err::<bool, SchedulerError>(SchedulerError::ClaimUnderflow)
                && after.active@ == before.active@
                && after.queue@ == before.queue@
        } else {
            let success = outcome == PieceJobOutcome::Success && !active[p].completed;
            let claims = (active[p].claims - 1) as u64;
            let completed = active[p].completed || success;
            &&& first == Ok::<bool, SchedulerError>(success)
            &&& after.endgame_cancelled_jobs == if outcome == PieceJobOutcome::Cancelled {
                saturating_inc(before.endgame_cancelled_jobs)
            } else {
                before.endgame_cancelled_jobs
            }
            &&& claims > 0 ==> active_view(after.active@) == active.update(
                p,
                ActiveModel { claims, completed, ..active[p] },
            ) && jobs_view(after.queue@) == queue
                && after.pieces_reassigned == before.pieces_reassigned
            &&& claims == 0 ==> active_view(after.active@) == active.remove(p) && (
            if completed {
                jobs_view(after.queue@) == queue && after.pieces_reassigned
                    == before.pieces_reassigned
            } else {
                jobs_view(after.queue@) == queue.push(
                    JobModel {
                        attempt: saturating_inc32(job.attempt),
                        endgame_duplicate: false,
                        ..job@
                    },
                ) && after.pieces_reassigned == saturating_inc(
                    before.pieces_reassigned,
                )
            })
        }
    }
    &&& after.availability_counts@ == before.availability_counts@
    &&& after.pending_peer_registrations == before.pending_peer_registrations
    &&& after.endgame_duplicate_pieces == before.endgame_duplicate_pieces
}

/// What claiming work for a peer with the given pieces does: the rarest
/// claimable queued job, else (endgame) a duplicate of a job one other peer
/// alone works on, else waiting while others work, else done.
pub open spec fn claim_effect(before: SchedulerState, after: SchedulerState, availability: Seq<bool>, claim: Claim) -> bool {
    &&& after.availability_counts@ == before.availability_counts@
    &&& after.pieces_reassigned == before.pieces_reassigned
    &&& after.endgame_cancelled_jobs == before.endgame_cancelled_jobs
    &&& after.pending_peer_registrations == before.pending_peer_registrations
    &&& ({
        let queue = jobs_view(before.queue@);
        let active = active_view(before.active@);
        let counts = before.availability_counts@;
        if exists|q: int|
            0 <= q < queue.len() && has_piece(availability, #[trigger] queue[q].piece_index) {
            exists|p: int|
                #![auto]
                best_queued(queue, counts, availability, p) && claimed_job(claim) == Some(
                    JobModel { endgame_duplicate: false, ..queue[p] },
                ) && jobs_view(after.queue@) == queue.remove(p) && active_view(
                    after.active@,
                ) == active.push(
                    ActiveModel {
                        job: JobModel { endgame_duplicate: false, ..queue[p] },
                        claims: 1,
                        completed: false,
                    },
                ) && after.endgame_duplicate_pieces
                    == before.endgame_duplicate_pieces
        } else if exists|q: int|
            0 <= q < active.len() && duplicable(#[trigger] active[q], availability) {
            exists|p: int|
                #![auto]
                best_duplicate(active, availability, p) && claimed_job(claim) == Some(
                    JobModel { endgame_duplicate: true, ..active[p].job },
                ) && jobs_view(after.queue@) == queue && active_view(
                    after.active@,
                ) == active.update(p, ActiveModel { claims: 2, ..active[p] })
                    && after.endgame_duplicate_pieces == if before.endgame_duplicate_pieces < u64::MAX {
                    before.endgame_duplicate_pieces + 1
                } else {
                    before.endgame_duplicate_pieces as int
                }
        } else {
            &&& jobs_view(after.queue@) == queue
            &&& active_view(after.active@) == active
            &&& after.endgame_duplicate_pieces == before.endgame_duplicate_pieces
            &&& (if active.len() == 0 {
                claim is Done
            } else {
                claim is Wait
            })
        }
    })
}

impl SchedulerState {
    /// A scheduler over piece jobs, with no peer registered.
    pub fn new(jobs: Vec<PieceJob>, piece_count: usize) -> (state: SchedulerState)
        ensures
            jobs_view(state.queue@) == jobs_view(jobs@),
            state.active@.len() == 0,
            state.pieces_reassigned == 0,
            state.endgame_duplicate_pieces == 0,
            state.endgame_cancelled_jobs == 0,
            state.pending_peer_registrations == 0,
            state.availability_counts@ == Seq::new(piece_count as nat, |i: int| 0u16),
    {
        SchedulerState {
            queue: jobs,
            active: Vec::new(),
            pieces_reassigned: 0,
            endgame_duplicate_pieces: 0,
            endgame_cancelled_jobs: 0,
            pending_peer_registrations: 0,
            availability_counts: zero_counts(piece_count),
        }
    }

    /// Claims work for a peer with the given pieces: the rarest claimable
    /// queued job, else (endgame) a duplicate of a job one other peer alone
    /// works on, else waiting while others work, else done.
    pub fn claim(&mut self, availability: &[bool]) -> (claim: Claim)
        ensures
            claim_effect(*old(self), *final(self), availability@, claim),
    {
        let ghost queue = jobs_view(self.queue@);
        let ghost counts = self.availability_counts@;
        let mut best: Option<usize> = None;
        let mut i: usize = 0;
        while i < self.queue.len()
            invariant
                queue == jobs_view(self.queue@),
                counts == self.availability_counts@,
                i <= queue.len(),
                match best {
                    Some(p) => best_queued(queue.subrange(0, i as int), counts, availability@, p as int),
                    None => forall|q: int|
                        0 <= q < i ==> !has_piece(availability@, #[trigger] queue[q].piece_index),
                },
            decreases queue.len() - i,
        {
            let piece = self.queue[i].piece_index;
            let ghost sub = queue.subrange(0, i + 1);
            if (piece as usize) < availability.len() && availability[piece as usize] {
                let replace = match best {
                    None => true,
                    Some(p) => {
                        let a_count = count_of(&self.availability_counts, piece);
                        let b_piece = self.queue[p].piece_index;
                        let b_count = count_of(&self.availability_counts, b_piece);
                        let a_attempt = self.queue[i].attempt;
                        let b_attempt = self.queue[p].attempt;
                        a_count < b_count || (a_count == b_count && (a_attempt > b_attempt || (
                        a_attempt == b_attempt && piece < b_piece)))
                    },
                };
                proof {
                    assert(sub[i as int] == queue[i as int]);
                    assert forall|q: int| 0 <= q < i implies #[trigger] sub[q] == queue[q] by {}
                }
                if replace {
                    best = Some(i);
                }
            }
            proof {
                assert forall|q: int| 0 <= q <= i implies #[trigger] sub[q] == queue[q] by {}
            }
            i = i + 1;
        }
        assert(queue.subrange(0, queue.len() as int) =~= queue);
        match best {
            Some(p) => {
                let mut job = self.queue.remove(p);
                job.endgame_duplicate = false;
                let copy = job.duplicate();
                let ghost before = active_view(self.active@);
                self.active.push(ActivePieceJob { job: copy, claims: 1, completed: false });
                proof {
                    assert(active_view(self.active@) =~= before.push(
                        ActiveModel { job: job@, claims: 1, completed: false },
                    ));
                    assert(jobs_view(self.queue@) =~= queue.remove(p as int));
                    assert(job@ == JobModel { endgame_duplicate: false, ..queue[p as int] });
                    assert(best_queued(queue, counts, availability@, p as int));
                }
                return Claim::Job(job);
            },
            None => {},
        }
        let ghost active = active_view(self.active@);
        let mut dup: Option<usize> = None;
        let mut k: usize = 0;
        while k < self.active.len()
            invariant
                active == active_view(self.active@),
                k <= active.len(),
                match dup {
                    Some(p) => best_duplicate(active.subrange(0, k as int), availability@, p as int),
                    None => forall|q: int| 0 <= q < k ==> !duplicable(#[trigger] active[q], availability@),
                },
            decreases active.len() - k,
        {
            let piece = self.active[k].job.piece_index;
            let ghost sub = active.subrange(0, k + 1);
            proof {
                assert forall|q: int| 0 <= q <= k implies #[trigger] sub[q] == active[q] by {}
            }
            if !self.active[k].completed && self.active[k].claims == 1 && (piece as usize)
                < availability.len() && availability[piece as usize] {
                let replace = match dup {
                    None => true,
                    Some(p) => piece < self.active[p].job.piece_index,
                };
                if replace {
                    dup = Some(k);
                }
            }
            k = k + 1;
        }
        assert(active.subrange(0, active.len() as int) =~= active);
        match dup {
            Some(p) => {
                let mut copy = self.active[p].job.duplicate();
                copy.endgame_duplicate = true;
                let ghost before = active_view(self.active@);
                let mut entry = self.active.remove(p);
                entry.claims = entry.claims + 1;
                self.active.insert(p, entry);
                assert(active_view(self.active@) =~= before.update(
                    p as int,
                    ActiveModel { claims: 2, ..before[p as int] },
                ));
                self.endgame_duplicate_pieces = self.endgame_duplicate_pieces.saturating_add(1);
                assert(best_duplicate(active, availability@, p as int));
                return Claim::Job(copy);
            },
            None => {},
        }
        if self.active.len() == 0 {
            Claim::Done
        } else {
            Claim::Wait
        }
    }
}

/// The rarity of a piece from the counts (the most when unknown).
fn count_of(counts: &Vec<u16>, piece: u32) -> (count: u16)
    ensures
        count == rarity(counts@, piece),
{
    if (piece as usize) < counts.len() {
        counts[piece as usize]
    } else {
        u16::MAX
    }
}

/// `n` zero counts.
fn zero_counts(n: usize) -> (counts: Vec<u16>)
    ensures
        counts@ == Seq::new(n as nat, |i: int| 0u16),
{
    let mut counts: Vec<u16> = Vec::new();
    let mut i: usize = 0;
    while i < n
        invariant
            i <= n,
            counts@ == Seq::new(i as nat, |j: int| 0u16),
        decreases n - i,
    {
        counts.push(0);
        assert(counts@ =~= Seq::new((i + 1) as nat, |j: int| 0u16));
        i = i + 1;
    }
    counts
}


/// How a peer's work on a job ended.
#[derive(Debug, Clone, Copy, PartialEq, Eq, Structural)]
pub enum PieceJobOutcome {
    Success,
    Failed,
    Cancelled,
}

/// Why the scheduler refused a request.
#[derive(Debug, Clone, Copy, PartialEq, Eq, Structural)]
pub enum SchedulerError {
    /// A finished job that is not active.
    UnknownJob,
    /// A finished job with no claim left.
    ClaimUnderflow,
    /// A batch started while work is active or peers are still registering.
    BatchBusy,
    /// A peer registered outside a batch.
    NoBatch,
    /// A peer's availability does not cover the torrent's pieces.
    AvailabilityLength,
}

/// The first active job for a piece, if any.
pub open spec fn active_position(active: Seq<ActiveModel>, piece: u32) -> int
    decreases active.len(),
{
    if active.len() == 0 {
        0
    } else if active[0].job.piece_index == piece {
        0
    } else {
        1 + active_position(active.drop_first(), piece)
    }
}

proof fn lemma_active_position(active: Seq<ActiveModel>, piece: u32, i: int)
    requires
        0 <= i <= active.len(),
        forall|j: int| 0 <= j < i ==> active[j].job.piece_index != piece,
        i < active.len() ==> active[i].job.piece_index == piece,
    ensures
        active_position(active, piece) == i,
    decreases i,
{
    if i > 0 {
        let t = active.drop_first();
        assert forall|j: int| 0 <= j < i - 1 implies t[j].job.piece_index != piece by {
            assert(t[j] == active[j + 1]);
        }
        lemma_active_position(t, piece, i - 1);
    }
}

pub open spec fn saturating_inc(v: u64) -> u64 {
    if v < u64::MAX {
        (v + 1) as u64
    } else {
        v
    }
}

pub open spec fn saturating_inc32(v: u32) -> u32 {
    if v < u32::MAX {
        (v + 1) as u32
    } else {
        v
    }
}

impl SchedulerState {
    /// Records how a peer's work on a job ended. The first success completes
    /// the piece; when the last claim ends without completion, the job goes
    /// back to the queue with one more attempt. Returns whether this was the
    /// first success.
    pub fn finish(&mut self, job: PieceJob, outcome: PieceJobOutcome) -> (first: Result<bool, SchedulerError>)
        ensures
            finish_effect(*old(self), *final(self), job, outcome, first),
    {
        let ghost active = active_view(self.active@);
        let mut i: usize = 0;
        while i < self.active.len()
            invariant
                active == active_view(self.active@),
                i <= active.len(),
                forall|j: int| 0 <= j < i ==> active[j].job.piece_index != job.piece_index,
            ensures
                i <= active.len(),
                forall|j: int| 0 <= j < i ==> active[j].job.piece_index != job.piece_index,
                i < active.len() ==> active[i as int].job.piece_index == job.piece_index,
            decreases active.len() - i,
        {
            if self.active[i].job.piece_index == job.piece_index {
                break;
            }
            i = i + 1;
        }
        proof {
            lemma_active_position(active, job.piece_index, i as int);
        }
        if i == self.active.len() {
            return Err(SchedulerError::UnknownJob);
        }
        if self.active[i].claims == 0 {
            return Err(SchedulerError::ClaimUnderflow);
        }
        let mut entry = self.active.remove(i);
        entry.claims = entry.claims - 1;
        let first_success = outcome == PieceJobOutcome::Success && !entry.completed;
        if first_success {
            entry.completed = true;
        }
        let claims = entry.claims;
        let completed = entry.completed;
        if outcome == PieceJobOutcome::Cancelled {
            self.endgame_cancelled_jobs = self.endgame_cancelled_jobs.saturating_add(1);
        }
        if claims == 0 {
            assert(active_view(self.active@) =~= active.remove(i as int));
            if !completed {
                let mut job = job;
                job.attempt = job.attempt.saturating_add(1);
                job.endgame_duplicate = false;
                self.pieces_reassigned = self.pieces_reassigned.saturating_add(1);
                let ghost before = jobs_view(self.queue@);
                self.queue.push(job);
                assert(jobs_view(self.queue@) =~= before.push(job@));
            }
        } else {
            self.active.insert(i, entry);
            assert(active_view(self.active@) =~= active.update(
                i as int,
                ActiveModel { claims, completed, ..active[i as int] },
            ));
        }
        Ok(first_success)
    }

    /// Starts a batch of `peer_count` peers over `piece_count` pieces, with
    /// every piece's availability count at zero.
    pub fn begin_peer_batch(&mut self, peer_count: usize, piece_count: usize) -> (result: Result<
        (),
        SchedulerError,
    >)
        ensures
            (old(self).active@.len() != 0 || old(self).pending_peer_registrations != 0) ==> result
                == Err::<(), SchedulerError>(SchedulerError::BatchBusy) && final(self).pending_peer_registrations
                == old(self).pending_peer_registrations && final(self).availability_counts@ == old(self).availability_counts@,
            (old(self).active@.len() == 0 && old(self).pending_peer_registrations == 0) ==> result
                is Ok && final(self).pending_peer_registrations == peer_count && final(self).availability_counts@ == Seq::new(piece_count as nat, |i: int| 0u16),
            final(self).queue@ == old(self).queue@,
            final(self).active@ == old(self).active@,
    {
        if self.active.len() != 0 || self.pending_peer_registrations != 0 {
            return Err(SchedulerError::BatchBusy);
        }
        self.pending_peer_registrations = peer_count;
        self.availability_counts = zero_counts(piece_count);
        Ok(())
    }

    /// Counts a registering peer's pieces into the availability counts
    /// (saturating); `None` registers a peer that reported nothing.
    pub fn register_peer(&mut self, availability: Option<&[bool]>) -> (result: Result<
        (),
        SchedulerError,
    >)
        ensures
            old(self).pending_peer_registrations == 0 ==> result == Err::<(), SchedulerError>(
                SchedulerError::NoBatch,
            ) && final(self).availability_counts@ == old(self).availability_counts@,
            old(self).pending_peer_registrations > 0 ==> match availability {
                Some(a) => if a@.len() != old(self).availability_counts@.len() {
                    result == Err::<(), SchedulerError>(SchedulerError::AvailabilityLength)
                        && final(self).availability_counts@ == old(self).availability_counts@
                } else {
                    &&& result is Ok
                    &&& final(self).pending_peer_registrations == old(self).pending_peer_registrations - 1
                    &&& final(self).availability_counts@.len() == a@.len()
                    &&& forall|i: int|
                        0 <= i < a@.len() ==> #[trigger] final(self).availability_counts@[i] == if a@[i] {
                            if old(self).availability_counts@[i] < u16::MAX {
                                (old(self).availability_counts@[i] + 1) as u16
                            } else {
                                old(self).availability_counts@[i]
                            }
                        } else {
                            old(self).availability_counts@[i]
                        }
                },
                None => result is Ok && final(self).pending_peer_registrations == old(self).pending_peer_registrations - 1 && final(self).availability_counts@ == old(self).availability_counts@,
            },
            final(self).queue@ == old(self).queue@,
            final(self).active@ == old(self).active@,
    {
        if self.pending_peer_registrations == 0 {
            return Err(SchedulerError::NoBatch);
        }
        match availability {
            Some(a) => {
                if a.len() != self.availability_counts.len() {
                    return Err(SchedulerError::AvailabilityLength);
                }
                let ghost before = self.availability_counts@;
                let mut i: usize = 0;
                while i < a.len()
                    invariant
                        i <= a@.len(),
                        a@.len() == before.len(),
                        self.pending_peer_registrations == old(self).pending_peer_registrations,
                        self.pending_peer_registrations > 0,
                        self.queue@ == old(self).queue@,
                        self.active@ == old(self).active@,
                        self.availability_counts@.len() == before.len(),
                        forall|j: int|
                            0 <= j < i ==> #[trigger] self.availability_counts@[j] == if a@[j] {
                                if before[j] < u16::MAX {
                                    (before[j] + 1) as u16
                                } else {
                                    before[j]
                                }
                            } else {
                                before[j]
                            },
                        forall|j: int| i <= j < before.len() ==> #[trigger] self.availability_counts@[j] == before[j],
                    decreases a@.len() - i,
                {
                    if a[i] {
                        let c = self.availability_counts[i];
                        self.availability_counts.set(i, c.saturating_add(1));
                    }
                    i = i + 1;
                }
            },
            None => {},
        }
        self.pending_peer_registrations = self.pending_peer_registrations - 1;
        Ok(())
    }

    /// Whether every job is done: nothing queued and nothing active.
    pub fn is_complete(&self) -> (complete: bool)
        ensures
            complete == (self.queue@.len() == 0 && self.active@.len() == 0),
    {
        self.queue.len() == 0 && self.active.len() == 0
    }

    /// Whether the first active job for a piece is completed.
    pub fn piece_completed(&self, piece_index: u32) -> (completed: bool)
        ensures
            ({
                let active = active_view(self.active@);
                let p = active_position(active, piece_index);
                completed == (p < active.len() && active[p].completed)
            }),
    {
        let ghost active = active_view(self.active@);
        let mut i: usize = 0;
        while i < self.active.len()
            invariant
                active == active_view(self.active@),
                i <= active.len(),
                forall|j: int| 0 <= j < i ==> active[j].job.piece_index != piece_index,
            decreases active.len() - i,
        {
            if self.active[i].job.piece_index == piece_index {
                proof {
                    lemma_active_position(active, piece_index, i as int);
                }
                return self.active[i].completed;
            }
            i = i + 1;
        }
        proof {
            lemma_active_position(active, piece_index, i as int);
        }
        false
    }
}


/// A piece being received from a peer: the blocks still to request, those in
/// flight, and the piece's bytes so far.
#[derive(Debug)]
pub struct PieceAssembly {
    pub piece_index: u32,
    pub piece_offset: u64,
    pub pending: Vec<BlockRequest>,
    pub inflight: Vec<BlockRequest>,
    pub bytes: Vec<u8>,
}

/// The first in-flight request for a block, or `s.len()`.
pub open spec fn inflight_position(s: Seq<BlockRequest>, piece: u32, begin: u32) -> int
    decreases s.len(),
{
    if s.len() == 0 {
        0
    } else if s[0].piece_index == piece && s[0].begin == begin {
        0
    } else {
        1 + inflight_position(s.drop_first(), piece, begin)
    }
}

proof fn lemma_inflight_position(s: Seq<BlockRequest>, piece: u32, begin: u32, i: int)
    requires
        0 <= i <= s.len(),
        forall|j: int| 0 <= j < i ==> !(s[j].piece_index == piece && s[j].begin == begin),
        i < s.len() ==> s[i].piece_index == piece && s[i].begin == begin,
    ensures
        inflight_position(s, piece, begin) == i,
    decreases i,
{
    if i > 0 {
        let t = s.drop_first();
        assert forall|j: int| 0 <= j < i - 1 implies !(t[j].piece_index == piece && t[j].begin == begin) by {
            assert(t[j] == s[j + 1]);
        }
        lemma_inflight_position(t, piece, begin, i - 1);
    }
}

impl PieceAssembly {
    /// Starts receiving a job's blocks into the piece's current bytes.
    pub fn new(job: &PieceJob, piece_offset: u64, current: Vec<u8>) -> (assembly: PieceAssembly)
        ensures
            assembly.piece_index == job.piece_index,
            assembly.piece_offset == piece_offset,
            assembly.pending@ == job.requests@,
            assembly.inflight@.len() == 0,
            assembly.bytes@ == current@,
    {
        let copy = job.duplicate();
        PieceAssembly {
            piece_index: job.piece_index,
            piece_offset,
            pending: copy.requests,
            inflight: Vec::new(),
            bytes: current,
        }
    }

    /// Whether every block has arrived.
    pub fn is_done(&self) -> (done: bool)
        ensures
            done == (self.pending@.len() == 0 && self.inflight@.len() == 0),
    {
        self.pending.len() == 0 && self.inflight.len() == 0
    }

    /// The next block to request, moved from pending to in flight, while
    /// fewer than the limit are in flight.
    pub fn next_request(&mut self) -> (request: Option<BlockRequest>)
        ensures
            final(self).piece_index == old(self).piece_index,
            final(self).piece_offset == old(self).piece_offset,
            final(self).bytes@ == old(self).bytes@,
            (old(self).inflight@.len() >= MAX_INFLIGHT_REQUESTS || old(self).pending@.len() == 0)
                ==> request is None && final(self).pending@ == old(self).pending@
                && final(self).inflight@ == old(self).inflight@,
            (old(self).inflight@.len() < MAX_INFLIGHT_REQUESTS && old(self).pending@.len() > 0)
                ==> request == Some(old(self).pending@[0]) && final(self).pending@ == old(
                self).pending@.drop_first() && final(self).inflight@ == old(self).inflight@.push(
                old(self).pending@[0],
            ),
    {
        if self.inflight.len() >= MAX_INFLIGHT_REQUESTS || self.pending.len() == 0 {
            return None;
        }
        let request = self.pending.remove(0);
        self.inflight.push(request);
        Some(request)
    }

    /// Takes a PIECE message's payload: the block must be in flight, of the
    /// requested length, and inside the piece; its bytes go into place.
    /// Returns the block's length.
    pub fn accept_block(&mut self, payload: &[u8]) -> (received: Result<u64, WireError>)
        ensures
            final(self).piece_index == old(self).piece_index,
            final(self).piece_offset == old(self).piece_offset,
            final(self).pending@ == old(self).pending@,
            payload@.len() < 8 ==> received == Err::<u64, WireError>(WireError::MalformedPiece),
            payload@.len() >= 8 ==> {
                let piece = be_u32(payload@[0], payload@[1], payload@[2], payload@[3]);
                let begin = be_u32(payload@[4], payload@[5], payload@[6], payload@[7]);
                let block = payload@.subrange(8, payload@.len() as int);
                let k = inflight_position(old(self).inflight@, piece, begin);
                let request = old(self).inflight@[k];
                let relative = request.absolute_offset - old(self).piece_offset;
                let end = relative + request.length;
                if k >= old(self).inflight@.len() {
                    received == Err::<u64, WireError>(WireError::UnrequestedBlock)
                } else if block.len() != request.length || relative < 0 || end > old(self).bytes@.len() {
                    received is Err && final(self).inflight@ == old(self).inflight@.remove(k)
                } else {
                    &&& received == Ok::<u64, WireError>(block.len() as u64)
                    &&& final(self).inflight@ == old(self).inflight@.remove(k)
                    &&& final(self).bytes@ == old(self).bytes@.subrange(0, relative) + block
                        + old(self).bytes@.subrange(end, old(self).bytes@.len() as int)
                }
            },
    {
        if payload.len() < 8 {
            return Err(WireError::MalformedPiece);
        }
        let piece = read_u32(payload, 0);
        let begin = read_u32(payload, 4);
        let mut k: usize = 0;
        let ghost inflight = self.inflight@;
        while k < self.inflight.len()
            invariant
                inflight == self.inflight@,
                k <= inflight.len(),
                forall|j: int| 0 <= j < k ==> !(inflight[j].piece_index == piece && inflight[j].begin == begin),
            ensures
                k <= inflight.len(),
                forall|j: int| 0 <= j < k ==> !(inflight[j].piece_index == piece && inflight[j].begin == begin),
                k < inflight.len() ==> inflight[k as int].piece_index == piece && inflight[k as int].begin == begin,
            decreases inflight.len() - k,
        {
            if self.inflight[k].piece_index == piece && self.inflight[k].begin == begin {
                break;
            }
            k = k + 1;
        }
        proof {
            lemma_inflight_position(inflight, piece, begin, k as int);
        }
        if k == self.inflight.len() {
            return Err(WireError::UnrequestedBlock);
        }
        let request = self.inflight.remove(k);
        let n = payload.len();
        let block_length = n - 8;
        if block_length != request.length as usize {
            return Err(WireError::BlockLength);
        }
        if request.absolute_offset < self.piece_offset {
            return Err(WireError::BlockOutsidePiece);
        }
        let relative = request.absolute_offset - self.piece_offset;
        let end = relative as u128 + request.length as u128;
        if end > self.bytes.len() as u128 {
            return Err(WireError::BlockOutsidePiece);
        }
        let relative = relative as usize;
        let end = end as usize;
        let ghost before = self.bytes@;
        let mut i: usize = 0;
        while i < block_length
            invariant
                block_length == payload@.len() - 8,
                n == payload@.len(),
                relative + block_length == end,
                end <= before.len(),
                self.bytes@.len() == before.len(),
                i <= block_length,
                forall|j: int| 0 <= j < relative ==> self.bytes@[j] == before[j],
                forall|j: int| end <= j < before.len() ==> self.bytes@[j] == before[j],
                forall|j: int| relative <= j < relative + i ==> self.bytes@[j] == payload@[j - relative + 8],
                forall|j: int| relative + i <= j < end ==> self.bytes@[j] == before[j],
                self.piece_index == old(self).piece_index,
                self.piece_offset == old(self).piece_offset,
                self.pending@ == old(self).pending@,
                self.inflight@ == inflight.remove(k as int),
            decreases block_length - i,
        {
            self.bytes.set(relative + i, payload[8 + i]);
            i = i + 1;
        }
        assert(self.bytes@ =~= before.subrange(0, relative as int) + payload@.subrange(
            8,
            payload@.len() as int,
        ) + before.subrange(end as int, before.len() as int));
        Ok(block_length as u64)
    }
}


/// The 12-byte payload of a REQUEST or CANCEL message for a block.
pub open spec fn block_payload(r: BlockRequest) -> Seq<u8> {
    crate::tracker::be_bytes(r.piece_index as nat, 4) + crate::tracker::be_bytes(r.begin as nat, 4)
        + crate::tracker::be_bytes(r.length as nat, 4)
}

/// The CANCEL payloads for a worker's open requests: one per request, in order.
pub fn cancel_payloads(open: &Vec<BlockRequest>) -> (payloads: Vec<Vec<u8>>)
    ensures
        payloads@.len() == open@.len(),
        forall|k: int| 0 <= k < open@.len() ==> (#[trigger] payloads@[k])@ == block_payload(open@[k]),
{
    let mut payloads: Vec<Vec<u8>> = Vec::new();
    let mut k: usize = 0;
    while k < open.len()
        invariant
            k <= open@.len(),
            payloads@.len() == k,
            forall|j: int| 0 <= j < k ==> (#[trigger] payloads@[j])@ == block_payload(open@[j]),
        decreases open@.len() - k,
    {
        payloads.push(request_payload(open[k]));
        k = k + 1;
    }
    payloads
}

/// What a worker learned about the piece job it held.
pub enum WorkerEvent {
    /// Every block arrived and the piece's SHA-1 matched.
    Verified,
    /// Another worker completed the piece while these requests were open.
    WinnerSeen(Vec<BlockRequest>),
    /// The transfer failed.
    Failed,
}

/// What a worker does next with its job.
pub enum WorkerAction {
    /// Write the verified piece: this worker's result is the first admitted.
    Commit,
    /// Drop the piece: another result was admitted first.
    Discard,
    /// Send a CANCEL with each payload, then drop the piece.
    Cancel(Vec<Vec<u8>>),
    /// Stop the worker: its transfer failed.
    Abort,
}

/// Whether a scheduler's active job for a piece is completed.
pub open spec fn piece_done(s: SchedulerState, piece: u32) -> bool {
    let active = active_view(s.active@);
    let p = active_position(active, piece);
    p < active.len() && active[p].completed
}

/// How a worker's job is finished after an event: a verified piece succeeds
/// unless another worker completed it, a seen winner cancels, and a failure
/// fails unless the piece was completed meanwhile.
pub open spec fn worker_outcome(s: SchedulerState, piece: u32, event: WorkerEvent) -> PieceJobOutcome {
    match event {
        WorkerEvent::Verified => if piece_done(s, piece) {
            PieceJobOutcome::Cancelled
        } else {
            PieceJobOutcome::Success
        },
        WorkerEvent::WinnerSeen(_) => PieceJobOutcome::Cancelled,
        WorkerEvent::Failed => if piece_done(s, piece) {
            PieceJobOutcome::Cancelled
        } else {
            PieceJobOutcome::Failed
        },
    }
}

/// A worker's decision after an event on its job: the job is finished with
/// the matching outcome, and only the first verified result is committed.
pub fn worker_step(s: &mut SchedulerState, job: PieceJob, event: WorkerEvent) -> (action: Result<
    WorkerAction,
    SchedulerError,
>)
    ensures
        ({
            let outcome = worker_outcome(*old(s), job.piece_index, event);
            exists|first: Result<bool, SchedulerError>|
                #[trigger] finish_effect(*old(s), *final(s), job, outcome, first) && match first {
                    Err(e) => action == Err::<WorkerAction, SchedulerError>(e),
                    Ok(b) => match event {
                        WorkerEvent::Verified => action matches Ok(a) && if b {
                            a is Commit
                        } else {
                            a is Discard
                        },
                        WorkerEvent::WinnerSeen(open) => action matches Ok(WorkerAction::Cancel(p)) && p@.len()
                            == open@.len() && forall|k: int|
                            0 <= k < open@.len() ==> (#[trigger] p@[k])@ == block_payload(open@[k]),
                        WorkerEvent::Failed => action matches Ok(a) && if outcome == PieceJobOutcome::Failed {
                            a is Abort
                        } else {
                            a is Discard
                        },
                    },
                }
        }),
{
    let ghost before = *s;
    let ghost j = job;
    let done = s.piece_completed(job.piece_index);
    match event {
        WorkerEvent::Verified => {
            let outcome = if done {
                PieceJobOutcome::Cancelled
            } else {
                PieceJobOutcome::Success
            };
            let first = s.finish(job, outcome);
            assert(finish_effect(before, *s, j, outcome, first));
            match first {
                Err(e) => Err(e),
                Ok(b) => Ok(
                    if b {
                        WorkerAction::Commit
                    } else {
                        WorkerAction::Discard
                    },
                ),
            }
        },
        WorkerEvent::WinnerSeen(open) => {
            let payloads = cancel_payloads(&open);
            let first = s.finish(job, PieceJobOutcome::Cancelled);
            assert(finish_effect(before, *s, j, PieceJobOutcome::Cancelled, first));
            match first {
                Err(e) => Err(e),
                Ok(_) => Ok(WorkerAction::Cancel(payloads)),
            }
        },
        WorkerEvent::Failed => {
            let outcome = if done {
                PieceJobOutcome::Cancelled
            } else {
                PieceJobOutcome::Failed
            };
            let first = s.finish(job, outcome);
            assert(finish_effect(before, *s, j, outcome, first));
            match first {
                Err(e) => Err(e),
                Ok(_) => Ok(
                    if done {
                        WorkerAction::Discard
                    } else {
                        WorkerAction::Abort
                    },
                ),
            }
        },
    }
}

/// Whether a peer advertises a piece: a worker holds a job only for such a piece.
pub fn peer_has_piece(availability: &[bool], piece: u32) -> (has: bool)
    ensures
        has == has_piece(availability@, piece),
{
    (piece as usize) < availability.len() && availability[piece as usize]
}

impl PieceAssembly {
    /// Whether the piece is complete and verified: every block arrived, it
    /// has the piece's length, and its SHA-1 is the torrent's.
    pub fn verified(&self, torrent: &TorrentV1) -> (ok: bool)
        requires
            self.piece_index < torrent.piece_sha1@.len(),
        ensures
            ok == (self.pending@.len() == 0 && self.inflight@.len() == 0 && self.piece_index
                * torrent.piece_length <= u64::MAX && self.bytes@.len() == piece_size(
                torrent.total_length,
                torrent.piece_length,
                self.piece_index as int,
            ) && crate::text::ascii_chars(crate::codec::hex_lower(crate::codec::sha1_digest(self.bytes@)))
                == torrent.piece_sha1@[self.piece_index as int]@),
    {
        if !self.is_done() {
            return false;
        }
        let size = match piece_length(torrent, self.piece_index as u64) {
            Ok(l) => l,
            Err(_) => {
                return false;
            },
        };
        if self.bytes.len() as u64 != size {
            return false;
        }
        crate::resume::piece_bytes_match(torrent, self.piece_index as usize, self.bytes.as_slice())
    }
}


/// No piece can be committed twice: queued pieces are distinct, uncommitted
/// and not active; active pieces are distinct; and an active job is
/// completed exactly when its piece was committed.
pub open spec fn commit_safe(s: SchedulerState, committed: Set<u32>) -> bool {
    let queue = jobs_view(s.queue@);
    let active = active_view(s.active@);
    &&& forall|i: int, j: int|
        0 <= i < j < queue.len() ==> #[trigger] queue[i].piece_index != #[trigger] queue[j].piece_index
    &&& forall|i: int| 0 <= i < queue.len() ==> !committed.contains(#[trigger] queue[i].piece_index)
    &&& forall|i: int, j: int|
        0 <= i < j < active.len() ==> #[trigger] active[i].job.piece_index != #[trigger] active[j].job.piece_index
    &&& forall|i: int| 0 <= i < active.len() ==> (#[trigger] active[i]).completed == committed.contains(active[i].job.piece_index)
    &&& forall|i: int, j: int|
        0 <= i < queue.len() && 0 <= j < active.len() ==> #[trigger] queue[i].piece_index != #[trigger] active[j].job.piece_index
}

/// A fresh scheduler over jobs of distinct pieces has committed nothing and
/// can commit each piece.
pub proof fn law_new_scheduler_commits_nothing(s: SchedulerState)
    requires
        s.active@.len() == 0,
        forall|i: int, j: int|
            0 <= i < j < s.queue@.len() ==> #[trigger] s.queue@[i].piece_index != #[trigger] s.queue@[j].piece_index,
    ensures
        commit_safe(s, Set::empty()),
{
    let queue = jobs_view(s.queue@);
    assert forall|i: int, j: int| 0 <= i < j < queue.len() implies #[trigger] queue[i].piece_index != #[trigger] queue[j].piece_index by {
        assert(queue[i].piece_index == s.queue@[i].piece_index);
        assert(queue[j].piece_index == s.queue@[j].piece_index);
    }
}

/// Registering peers and starting a batch leave the queue and the active
/// jobs alone, and so what can be committed.
pub proof fn law_registration_keeps_commits(before: SchedulerState, after: SchedulerState, committed: Set<u32>)
    requires
        commit_safe(before, committed),
        after.queue@ == before.queue@,
        after.active@ == before.active@,
    ensures
        commit_safe(after, committed),
{
}

/// Claiming work never hands out a committed piece as new work: it moves an
/// uncommitted queued piece into the active jobs, or adds a second worker to
/// an uncompleted one.
pub proof fn law_claim_keeps_commits(
    before: SchedulerState,
    after: SchedulerState,
    availability: Seq<bool>,
    claim: Claim,
    committed: Set<u32>,
)
    requires
        commit_safe(before, committed),
        claim_effect(before, after, availability, claim),
    ensures
        commit_safe(after, committed),
{
    let queue = jobs_view(before.queue@);
    let active = active_view(before.active@);
    let counts = before.availability_counts@;
    let q2 = jobs_view(after.queue@);
    let a2 = active_view(after.active@);
    if exists|q: int| 0 <= q < queue.len() && has_piece(availability, #[trigger] queue[q].piece_index) {
        let p = choose|p: int|
            #![auto]
            best_queued(queue, counts, availability, p) && claimed_job(claim) == Some(
                JobModel { endgame_duplicate: false, ..queue[p] },
            ) && jobs_view(after.queue@) == queue.remove(p) && active_view(after.active@) == active.push(
                ActiveModel { job: JobModel { endgame_duplicate: false, ..queue[p] }, claims: 1, completed: false },
            ) && after.endgame_duplicate_pieces == before.endgame_duplicate_pieces;
        let piece = queue[p].piece_index;
        assert forall|i: int| 0 <= i < q2.len() implies #[trigger] q2[i] == queue[if i < p { i } else { i + 1 }] by {}
        assert forall|i: int| 0 <= i < a2.len() implies #[trigger] a2[i] == if i < active.len() {
            active[i]
        } else {
            ActiveModel { job: JobModel { endgame_duplicate: false, ..queue[p] }, claims: 1, completed: false }
        } by {}
        assert forall|i: int, j: int| 0 <= i < j < q2.len() implies #[trigger] q2[i].piece_index != #[trigger] q2[j].piece_index by {
            let ii = if i < p { i } else { i + 1 };
            let jj = if j < p { j } else { j + 1 };
            assert(queue[ii].piece_index != queue[jj].piece_index);
        }
        assert forall|i: int| 0 <= i < q2.len() implies !committed.contains(#[trigger] q2[i].piece_index) by {
            let ii = if i < p { i } else { i + 1 };
            assert(!committed.contains(queue[ii].piece_index));
        }
        assert forall|i: int, j: int| 0 <= i < j < a2.len() implies #[trigger] a2[i].job.piece_index != #[trigger] a2[j].job.piece_index by {
            if j == active.len() {
                assert(queue[p].piece_index != active[i].job.piece_index);
            } else {
                assert(active[i].job.piece_index != active[j].job.piece_index);
            }
        }
        assert forall|i: int| 0 <= i < a2.len() implies (#[trigger] a2[i]).completed == committed.contains(a2[i].job.piece_index) by {
            if i == active.len() {
                assert(!committed.contains(queue[p].piece_index));
            } else {
                assert(active[i].completed == committed.contains(active[i].job.piece_index));
            }
        }
        assert forall|i: int, j: int| 0 <= i < q2.len() && 0 <= j < a2.len() implies #[trigger] q2[i].piece_index != #[trigger] a2[j].job.piece_index by {
            let ii = if i < p { i } else { i + 1 };
            if j == active.len() {
                assert(queue[ii].piece_index != queue[p].piece_index);
            } else {
                assert(queue[ii].piece_index != active[j].job.piece_index);
            }
        }
    } else if exists|q: int| 0 <= q < active.len() && duplicable(#[trigger] active[q], availability) {
        let p = choose|p: int|
            #![auto]
            best_duplicate(active, availability, p) && claimed_job(claim) == Some(
                JobModel { endgame_duplicate: true, ..active[p].job },
            ) && jobs_view(after.queue@) == queue && active_view(after.active@) == active.update(
                p,
                ActiveModel { claims: 2, ..active[p] },
            ) && after.endgame_duplicate_pieces == if before.endgame_duplicate_pieces < u64::MAX {
                before.endgame_duplicate_pieces + 1
            } else {
                before.endgame_duplicate_pieces as int
            };
        assert forall|i: int| 0 <= i < a2.len() implies (#[trigger] a2[i]).job == active[i].job && a2[i].completed
            == active[i].completed by {}
        assert forall|i: int, j: int| 0 <= i < j < a2.len() implies #[trigger] a2[i].job.piece_index != #[trigger] a2[j].job.piece_index by {
            assert(active[i].job.piece_index != active[j].job.piece_index);
        }
        assert forall|i: int| 0 <= i < a2.len() implies (#[trigger] a2[i]).completed == committed.contains(a2[i].job.piece_index) by {
            assert(active[i].completed == committed.contains(active[i].job.piece_index));
        }
        assert forall|i: int, j: int| 0 <= i < q2.len() && 0 <= j < a2.len() implies #[trigger] q2[i].piece_index != #[trigger] a2[j].job.piece_index by {
            assert(queue[i].piece_index != active[j].job.piece_index);
        }
    }
}

proof fn lemma_active_position_found(active: Seq<ActiveModel>, piece: u32)
    ensures
        0 <= active_position(active, piece) <= active.len(),
        active_position(active, piece) < active.len() ==> active[active_position(active, piece)].job.piece_index == piece,
    decreases active.len(),
{
    if active.len() > 0 && active[0].job.piece_index != piece {
        lemma_active_position_found(active.drop_first(), piece);
    }
}

/// Ending a job commits its piece only on the first success: the answer is
/// `Ok(true)` only for a piece not committed before, which is committed from
/// then on; a later success of the same piece answers `Ok(false)`.
pub proof fn law_finish_commits_once(
    before: SchedulerState,
    after: SchedulerState,
    job: PieceJob,
    outcome: PieceJobOutcome,
    first: Result<bool, SchedulerError>,
    committed: Set<u32>,
)
    requires
        commit_safe(before, committed),
        finish_effect(before, after, job, outcome, first),
    ensures
        first == Ok::<bool, SchedulerError>(true) ==> !committed.contains(job.piece_index) && commit_safe(
            after,
            committed.insert(job.piece_index),
        ),
        first != Ok::<bool, SchedulerError>(true) ==> commit_safe(after, committed),
{
    let queue = jobs_view(before.queue@);
    let active = active_view(before.active@);
    let q2 = jobs_view(after.queue@);
    let a2 = active_view(after.active@);
    let p = active_position(active, job.piece_index);
    lemma_active_position_found(active, job.piece_index);
    if p < active.len() && active[p].claims > 0 {
        let piece = job.piece_index;
        let success = outcome == PieceJobOutcome::Success && !active[p].completed;
        let claims = (active[p].claims - 1) as u64;
        let completed = active[p].completed || success;
        let c2 = if success { committed.insert(piece) } else { committed };
        assert(active[p].job.piece_index == piece);
        assert(success ==> !committed.contains(piece));
        if claims > 0 {
            assert forall|i: int| 0 <= i < a2.len() implies (#[trigger] a2[i]).job == active[i].job && (i != p ==> a2[i]
                == active[i]) by {}
            assert forall|i: int, j: int| 0 <= i < j < a2.len() implies #[trigger] a2[i].job.piece_index != #[trigger] a2[j].job.piece_index by {
                assert(active[i].job.piece_index != active[j].job.piece_index);
            }
            assert forall|i: int| 0 <= i < a2.len() implies (#[trigger] a2[i]).completed == c2.contains(a2[i].job.piece_index) by {
                if i != p {
                    assert(active[i].job.piece_index != piece);
                    assert(active[i].completed == committed.contains(active[i].job.piece_index));
                } else {
                    assert(active[p].completed == committed.contains(piece));
                }
            }
            assert forall|i: int| 0 <= i < q2.len() implies !c2.contains(#[trigger] q2[i].piece_index) by {
                assert(queue[i].piece_index != active[p].job.piece_index);
            }
            assert forall|i: int, j: int| 0 <= i < q2.len() && 0 <= j < a2.len() implies #[trigger] q2[i].piece_index != #[trigger] a2[j].job.piece_index by {
                assert(queue[i].piece_index != active[j].job.piece_index);
            }
            assert(commit_safe(after, c2));
        } else {
            assert forall|i: int| 0 <= i < a2.len() implies #[trigger] a2[i] == active[if i < p { i } else { i + 1 }] by {}
            assert forall|i: int, j: int| 0 <= i < j < a2.len() implies #[trigger] a2[i].job.piece_index != #[trigger] a2[j].job.piece_index by {
                let ii = if i < p { i } else { i + 1 };
                let jj = if j < p { j } else { j + 1 };
                assert(active[ii].job.piece_index != active[jj].job.piece_index);
            }
            assert forall|i: int| 0 <= i < a2.len() implies (#[trigger] a2[i]).completed == c2.contains(a2[i].job.piece_index) by {
                let ii = if i < p { i } else { i + 1 };
                assert(active[ii].job.piece_index != active[p].job.piece_index);
                assert(active[ii].completed == committed.contains(active[ii].job.piece_index));
            }
            if completed {
                assert forall|i: int| 0 <= i < q2.len() implies !c2.contains(#[trigger] q2[i].piece_index) by {
                    assert(queue[i].piece_index != active[p].job.piece_index);
                }
                assert forall|i: int, j: int| 0 <= i < q2.len() && 0 <= j < a2.len() implies #[trigger] q2[i].piece_index != #[trigger] a2[j].job.piece_index by {
                    let jj = if j < p { j } else { j + 1 };
                    assert(queue[i].piece_index != active[jj].job.piece_index);
                }
                assert(commit_safe(after, c2));
            } else {
                assert(!committed.contains(piece));
                assert forall|i: int| 0 <= i < q2.len() implies #[trigger] q2[i].piece_index == if i < queue.len() {
                    queue[i].piece_index
                } else {
                    piece
                } by {}
                assert forall|i: int, j: int| 0 <= i < j < q2.len() implies #[trigger] q2[i].piece_index != #[trigger] q2[j].piece_index by {
                    if j == queue.len() {
                        assert(queue[i].piece_index != active[p].job.piece_index);
                    } else {
                        assert(queue[i].piece_index != queue[j].piece_index);
                    }
                }
                assert forall|i: int| 0 <= i < q2.len() implies !c2.contains(#[trigger] q2[i].piece_index) by {
                    if i < queue.len() {
                        assert(!committed.contains(queue[i].piece_index));
                    }
                }
                assert forall|i: int, j: int| 0 <= i < q2.len() && 0 <= j < a2.len() implies #[trigger] q2[i].piece_index != #[trigger] a2[j].job.piece_index by {
                    let jj = if j < p { j } else { j + 1 };
                    if i == queue.len() {
                        assert(active[jj].job.piece_index != active[p].job.piece_index);
                    } else {
                        assert(queue[i].piece_index != active[jj].job.piece_index);
                    }
                }
                assert(commit_safe(after, c2));
            }
        }
    }
}

/// Rarest first: when the peer has the piece of some queued job, the claim
/// hands it a queued job of a piece it has, and no queued job of a piece it
/// has is held by fewer peers; among pieces held by equally many peers the job
/// tried more often goes first, and then the lower piece index.
pub proof fn law_claim_rarest_first(
    before: SchedulerState,
    after: SchedulerState,
    availability: Seq<bool>,
    claim: Claim,
)
    requires
        claim_effect(before, after, availability, claim),
        exists|q: int|
            0 <= q < before.queue@.len() && has_piece(
                availability,
                #[trigger] before.queue@[q].piece_index,
            ),
    ensures
        claim is Job,
        ({
            let job = claimed_job(claim).unwrap();
            let queue = jobs_view(before.queue@);
            let counts = before.availability_counts@;
            &&& has_piece(availability, job.piece_index)
            &&& exists|p: int|
                0 <= p < queue.len() && #[trigger] queue[p].piece_index == job.piece_index
                    && queue[p].attempt == job.attempt
            &&& forall|q: int|
                0 <= q < queue.len() && has_piece(availability, #[trigger] queue[q].piece_index)
                    ==> {
                    let held = if job.piece_index < counts.len() {
                        counts[job.piece_index as int] as int
                    } else {
                        u16::MAX as int
                    };
                    let other = if queue[q].piece_index < counts.len() {
                        counts[queue[q].piece_index as int] as int
                    } else {
                        u16::MAX as int
                    };
                    &&& held <= other
                    &&& held == other ==> job.attempt >= queue[q].attempt
                    &&& held == other && job.attempt == queue[q].attempt ==> job.piece_index
                        <= queue[q].piece_index
                }
        }),
{
    let queue = jobs_view(before.queue@);
    let counts = before.availability_counts@;
    let w = choose|q: int|
        0 <= q < before.queue@.len() && has_piece(availability, #[trigger] before.queue@[q].piece_index);
    assert(queue[w].piece_index == before.queue@[w].piece_index);
    let p = choose|p: int|
        #![auto]
        best_queued(queue, counts, availability, p) && claimed_job(claim) == Some(
            JobModel { endgame_duplicate: false, ..queue[p] },
        ) && jobs_view(after.queue@) == queue.remove(p) && active_view(after.active@)
            == active_view(before.active@).push(
            ActiveModel {
                job: JobModel { endgame_duplicate: false, ..queue[p] },
                claims: 1,
                completed: false,
            },
        ) && after.endgame_duplicate_pieces == before.endgame_duplicate_pieces;
    let job = claimed_job(claim).unwrap();
    assert(job.piece_index == queue[p].piece_index);
    assert forall|q: int|
        0 <= q < queue.len() && has_piece(availability, #[trigger] queue[q].piece_index) implies ({
        let held = if job.piece_index < counts.len() {
            counts[job.piece_index as int] as int
        } else {
            u16::MAX as int
        };
        let other = if queue[q].piece_index < counts.len() {
            counts[queue[q].piece_index as int] as int
        } else {
            u16::MAX as int
        };
        &&& held <= other
        &&& held == other ==> job.attempt >= queue[q].attempt
        &&& held == other && job.attempt == queue[q].attempt ==> job.piece_index
            <= queue[q].piece_index
    }) by {
        assert(claim_order_le(counts, queue[p], queue[q]));
    }
}

/// Bit `i` of a byte string, counted from the high bit of the first byte:
/// bit `0x80 >> (i % 8)` of byte `i / 8`.
pub open spec fn high_bit_first(bytes: Seq<u8>, i: int) -> bool {
    (bytes[i / 8] & (0x80u8 >> ((i % 8) as u8))) != 0u8
}

/// Shifting byte `b` right by `7 - k` leaves a one in the lowest bit exactly
/// when bit `0x80 >> k` of `b` is set.
proof fn lemma_high_bit_first(b: u8, k: u8)
    requires
        k < 8,
    ensures
        (((b >> ((7 - k) as u8)) & 1u8) == 1u8) == ((b & (0x80u8 >> k)) != 0u8),
{
    assert((((b >> ((7 - k) as u8)) & 1u8) == 1u8) == ((b & (0x80u8 >> k)) != 0u8)) by (bit_vector)
        requires
            k < 8,
    ;
}

/// A bitfield is read high bit first: piece `i` is available exactly when bit
/// `0x80 >> (i % 8)` of byte `i / 8` is set, so the high bit of the first byte
/// is piece 0.
pub proof fn law_bitfield_high_bit_first(
    payload: Seq<u8>,
    before: Seq<bool>,
    after: Seq<bool>,
    result: Result<(), WireError>,
)
    requires
        bitfield_read(payload, before, after, result),
        payload.len() == (before.len() + 7) / 8,
    ensures
        after.len() == before.len(),
        forall|i: int| 0 <= i < before.len() ==> #[trigger] after[i] == high_bit_first(payload, i),
{
    assert forall|i: int| 0 <= i < before.len() implies #[trigger] after[i] == high_bit_first(
        payload,
        i,
    ) by {
        let k = (i % 8) as u8;
        lemma_high_bit_first(payload[i / 8], k);
        assert(((7 - k) as u8) == ((7 - i % 8) as u8));
        assert(after[i] == bitfield_bit(payload, i));
    }
}

/// Endgame: when the peer has no queued piece to fetch but has the piece of an
/// uncompleted job that exactly one other peer works on, the claim hands it a
/// duplicate of such a job, the one of lowest piece index, and that job now
/// counts two workers.
pub proof fn law_claim_endgame_lowest_piece(
    before: SchedulerState,
    after: SchedulerState,
    availability: Seq<bool>,
    claim: Claim,
)
    requires
        claim_effect(before, after, availability, claim),
        forall|q: int|
            0 <= q < before.queue@.len() ==> !has_piece(
                availability,
                #[trigger] before.queue@[q].piece_index,
            ),
        exists|q: int|
            0 <= q < before.active@.len() && !before.active@[q].completed
                && before.active@[q].claims == 1 && has_piece(
                availability,
                #[trigger] before.active@[q].job.piece_index,
            ),
    ensures
        claim is Job,
        ({
            let job = claimed_job(claim).unwrap();
            let active = active_view(before.active@);
            &&& job.endgame_duplicate
            &&& has_piece(availability, job.piece_index)
            &&& exists|p: int|
                0 <= p < active.len() && #[trigger] active[p].job.piece_index == job.piece_index
                    && !active[p].completed && active[p].claims == 1
                    && active_view(after.active@) == active.update(p, ActiveModel { claims: 2, ..active[p] })
            &&& forall|q: int|
                0 <= q < active.len() && !active[q].completed && active[q].claims == 1 && has_piece(
                    availability,
                    #[trigger] active[q].job.piece_index,
                ) ==> job.piece_index <= active[q].job.piece_index
        }),
{
    let queue = jobs_view(before.queue@);
    let active = active_view(before.active@);
    let w = choose|q: int|
        0 <= q < before.active@.len() && !before.active@[q].completed && before.active@[q].claims == 1
            && has_piece(availability, #[trigger] before.active@[q].job.piece_index);
    assert(duplicable(active[w], availability));
    assert(!exists|q: int|
        0 <= q < queue.len() && has_piece(availability, #[trigger] queue[q].piece_index)) by {
        assert forall|q: int| 0 <= q < queue.len() implies !has_piece(
            availability,
            #[trigger] queue[q].piece_index,
        ) by {
            assert(queue[q].piece_index == before.queue@[q].piece_index);
        }
    }
    let p = choose|p: int|
        #![auto]
        best_duplicate(active, availability, p) && claimed_job(claim) == Some(
            JobModel { endgame_duplicate: true, ..active[p].job },
        ) && jobs_view(after.queue@) == queue && active_view(after.active@) == active.update(
            p,
            ActiveModel { claims: 2, ..active[p] },
        ) && after.endgame_duplicate_pieces == if before.endgame_duplicate_pieces < u64::MAX {
            before.endgame_duplicate_pieces + 1
        } else {
            before.endgame_duplicate_pieces as int
        };
    let job = claimed_job(claim).unwrap();
    assert(job.piece_index == active[p].job.piece_index);
    assert forall|q: int|
        0 <= q < active.len() && !active[q].completed && active[q].claims == 1 && has_piece(
            availability,
            #[trigger] active[q].job.piece_index,
        ) implies job.piece_index <= active[q].job.piece_index by {
        assert(duplicable(active[q], availability));
    }
}

/// A byte with a set bit at or below position `k` (counted from the high bit)
/// has such a bit at one position in particular.
proof fn lemma_find_set_bit(last: u8, k: u8) -> (j: u8)
    requires
        k < 8,
        last & (0xffu8 >> k) != 0,
    ensures
        k <= j < 8,
        last & (0x80u8 >> j) != 0,
    decreases 8 - k,
{
    assert(last & (0x80u8 >> k) != 0 || (k < 7 && last & (0xffu8 >> ((k + 1) as u8)) != 0)) by (bit_vector)
        requires
            k < 8,
            last & (0xffu8 >> k) != 0,
    ;
    if last & (0x80u8 >> k) != 0 {
        k
    } else {
        lemma_find_set_bit(last, (k + 1) as u8)
    }
}

/// Bits past the last piece are refused: reading a bitfield of the right
/// length fails with the spare-bits error exactly when one of the bits past
/// the last piece is set, and succeeds otherwise.
pub proof fn law_bitfield_spare_bits(
    payload: Seq<u8>,
    before: Seq<bool>,
    after: Seq<bool>,
    result: Result<(), WireError>,
)
    requires
        bitfield_read(payload, before, after, result),
        payload.len() == (before.len() + 7) / 8,
    ensures
        (result == Err::<(), WireError>(WireError::BitfieldSpareBits)) == (exists|i: int|
            before.len() <= i < payload.len() * 8 && #[trigger] high_bit_first(payload, i)),
        (result == Ok::<(), WireError>(())) == !(exists|i: int|
            before.len() <= i < payload.len() * 8 && #[trigger] high_bit_first(payload, i)),
{
    let n = before.len() as int;
    let len = payload.len() as int;
    let spare = len * 8 - n;
    if spare > 0 {
        let last = payload[len - 1];
        let s = spare as u8;
        let k = (8 - spare) as u8;
        assert(0 < s < 8);
        assert(last & (0xffu8 >> k) == last % (1u8 << s)) by (bit_vector)
            requires
                0 < s < 8,
                k == 8 - s,
        ;
        lemma_shl_pow2(s);
        assert(payload.last() == last);
        if exists|i: int| n <= i < len * 8 && #[trigger] high_bit_first(payload, i) {
            let i = choose|i: int| n <= i < len * 8 && #[trigger] high_bit_first(payload, i);
            let j = (i % 8) as u8;
            assert(i / 8 == len - 1);
            assert(k <= j < 8);
            assert(last & (0x80u8 >> j) != 0);
            assert(last & (0xffu8 >> k) != 0) by (bit_vector)
                requires
                    k <= j < 8,
                    last & (0x80u8 >> j) != 0,
            ;
        } else {
            if last & (0xffu8 >> k) != 0 {
                let j = lemma_find_set_bit(last, k);
                let i = 8 * (len - 1) + j;
                assert(i / 8 == len - 1 && i % 8 == j);
                assert(high_bit_first(payload, i));
            }
        }
    }
}

/// With no job the peer can take, neither queued nor to duplicate, a claim
/// changes no job: the peer is told it is done when no job is being worked on,
/// and to wait otherwise.
pub proof fn law_claim_wait_or_done(
    before: SchedulerState,
    after: SchedulerState,
    availability: Seq<bool>,
    claim: Claim,
)
    requires
        claim_effect(before, after, availability, claim),
        forall|q: int|
            0 <= q < before.queue@.len() ==> !has_piece(
                availability,
                #[trigger] before.queue@[q].piece_index,
            ),
        forall|q: int|
            0 <= q < before.active@.len() ==> before.active@[q].completed
                || before.active@[q].claims != 1 || !has_piece(
                availability,
                #[trigger] before.active@[q].job.piece_index,
            ),
    ensures
        (claim is Done) == (before.active@.len() == 0),
        (claim is Wait) == (before.active@.len() > 0),
        jobs_view(after.queue@) == jobs_view(before.queue@),
        active_view(after.active@) == active_view(before.active@),
        after.endgame_duplicate_pieces == before.endgame_duplicate_pieces,
{
    let queue = jobs_view(before.queue@);
    let active = active_view(before.active@);
    assert forall|q: int| 0 <= q < queue.len() implies !has_piece(
        availability,
        #[trigger] queue[q].piece_index,
    ) by {
        assert(queue[q].piece_index == before.queue@[q].piece_index);
    }
    assert forall|q: int| 0 <= q < active.len() implies !duplicable(#[trigger] active[q], availability) by {
        assert(active[q].job.piece_index == before.active@[q].job.piece_index);
    }
}
} // verus!
