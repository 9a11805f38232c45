//! Mapping local content-defined chunks onto the pieces of a v1 torrent:
//! which pieces the local index can rebuild, and which bytes are missing.

use vstd::prelude::*;

use crate::chunker::ChunkRecord;
use crate::codec::{hex_encode, hex_lower, sha1, sha1_digest};
use crate::descriptor::{descriptor_check, DescriptorError, TargetDescriptor};
use crate::metadata::TorrentV1;
use crate::peer::{overlap, overlap_length};
use crate::text::ascii_chars;

verus! {

/// One piece of the torrent as the local index covers it.
#[derive(Debug, Clone, PartialEq, Eq)]
pub struct BtPiecePlan {
    pub index: u64,
    pub offset: u64,
    pub length: u64,
    pub expected_sha1: String,
    pub locally_covered_bytes: u64,
    pub missing_bytes: u64,
    pub fully_local: bool,
    pub local_sha1_verified: bool,
}

/// The pieces of a torrent as the local index covers them, with totals.
#[derive(Debug, Clone, PartialEq, Eq)]
pub struct BtBridgePlan {
    pub torrent_name: String,
    pub descriptor_name: String,
    pub names_match: bool,
    pub info_hash_sha1: String,
    pub target_bytes: u64,
    pub piece_length: u64,
    pub total_pieces: u64,
    pub fully_local_pieces: u64,
    pub partially_local_pieces: u64,
    pub missing_pieces: u64,
    pub locally_covered_bytes: u64,
    pub missing_bytes: u64,
    pub fully_reconstructable_piece_bytes: u64,
    pub pieces: Vec<BtPiecePlan>,
}

/// Why a bridge plan was refused.
#[derive(Debug, Clone, Copy, PartialEq, Eq, Structural)]
pub enum BridgeError {
    Descriptor(DescriptorError),
    /// The torrent and the descriptor describe files of different sizes.
    SizeMismatch,
    /// A piece's offset does not fit in 64 bits.
    OffsetOverflow,
    /// A piece rebuilt wholly from local chunks does not match its SHA-1.
    PieceSha1(u64),
}

/// Where a chunk ends, saturating at the largest offset.
pub open spec fn chunk_end(c: ChunkRecord) -> u64 {
    if c.offset + c.length > u64::MAX {
        u64::MAX
    } else {
        (c.offset + c.length) as u64
    }
}

/// Bytes of `[start, end)` that the locally held chunks among the first `k` cover.
pub open spec fn local_cover(chunks: Seq<ChunkRecord>, local: Seq<Option<Vec<u8>>>, start: u64, end: u64, k: int) -> int
    decreases k,
{
    if k <= 0 {
        0
    } else {
        local_cover(chunks, local, start, end, k - 1) + if local[k - 1] is Some {
            overlap(chunks[k - 1].offset, chunk_end(chunks[k - 1]), start, end)
        } else {
            0
        }
    }
}

/// A piece buffer with a chunk's bytes written where the chunk lies in it.
pub open spec fn painted(buf: Seq<u8>, piece_offset: u64, c: ChunkRecord, bytes: Seq<u8>) -> Seq<u8> {
    Seq::new(
        buf.len(),
        |x: int|
            {
                let pos = piece_offset + x;
                if c.offset <= pos < chunk_end(c) {
                    bytes[pos - c.offset]
                } else {
                    buf[x]
                }
            },
    )
}

/// A piece assembled from the locally held chunks among the first `k`,
/// zero where none lies.
pub open spec fn assembled(chunks: Seq<ChunkRecord>, local: Seq<Option<Vec<u8>>>, piece_offset: u64, len: nat, k: int) -> Seq<u8>
    decreases k,
{
    if k <= 0 {
        Seq::new(len, |x: int| 0u8)
    } else {
        let prev = assembled(chunks, local, piece_offset, len, k - 1);
        match local[k - 1] {
            Some(b) => painted(prev, piece_offset, chunks[k - 1], b@),
            None => prev,
        }
    }
}

/// Where piece `p` ends.
pub open spec fn piece_end(total: u64, piece_length: u64, p: int) -> int {
    let offset = p * piece_length;
    let end = if offset + piece_length > u64::MAX { u64::MAX as int } else { offset + piece_length };
    if end < total { end } else { total as int }
}

/// What the plan says of piece `p`, given its offset fits.
pub open spec fn piece_plan_matches(
    plan: BtPiecePlan,
    torrent: TorrentV1,
    chunks: Seq<ChunkRecord>,
    local: Seq<Option<Vec<u8>>>,
    p: int,
) -> bool {
    let offset = p * torrent.piece_length;
    let end = piece_end(torrent.total_length, torrent.piece_length, p);
    let length = if end > offset { end - offset } else { 0 };
    let covered = local_cover(chunks, local, offset as u64, end as u64, chunks.len() as int);
    &&& plan.index == p
    &&& plan.offset == offset
    &&& plan.length == length
    &&& plan.expected_sha1 == torrent.piece_sha1@[p]
    &&& plan.locally_covered_bytes == if covered > u64::MAX { u64::MAX as int } else { covered }
    &&& plan.missing_bytes == if covered < length { length - covered } else { 0 }
    &&& plan.fully_local == (covered >= length)
    &&& plan.local_sha1_verified == plan.fully_local
}

/// Whether a fully local piece's bytes match its SHA-1.
pub open spec fn piece_hash_ok(torrent: TorrentV1, chunks: Seq<ChunkRecord>, local: Seq<Option<Vec<u8>>>, p: int) -> bool {
    let offset = p * torrent.piece_length;
    let end = piece_end(torrent.total_length, torrent.piece_length, p);
    let length = if end > offset { end - offset } else { 0 };
    let covered = local_cover(chunks, local, offset as u64, end as u64, chunks.len() as int);
    covered >= length ==> ascii_chars(
        hex_lower(sha1_digest(assembled(chunks, local, offset as u64, length as nat, chunks.len() as int))),
    ) == torrent.piece_sha1@[p]@
}

/// A count, saturating at the largest 64-bit value.
pub open spec fn saturated(v: int) -> int {
    if v > u64::MAX { u64::MAX as int } else { v }
}

/// Sums over the first `n` piece plans.
pub open spec fn plan_sum(pieces: Seq<BtPiecePlan>, n: int, what: spec_fn(BtPiecePlan) -> int) -> int
    decreases n,
{
    if n <= 0 {
        0
    } else {
        plan_sum(pieces, n - 1, what) + what(pieces[n - 1])
    }
}

pub open spec fn covered_of() -> spec_fn(BtPiecePlan) -> int {
    |p: BtPiecePlan| p.locally_covered_bytes as int
}

pub open spec fn fully_local_of() -> spec_fn(BtPiecePlan) -> int {
    |p: BtPiecePlan| if p.fully_local { 1int } else { 0int }
}

pub open spec fn partial_of() -> spec_fn(BtPiecePlan) -> int {
    |p: BtPiecePlan| if !p.fully_local && p.locally_covered_bytes > 0 { 1int } else { 0int }
}

pub open spec fn rebuildable_of() -> spec_fn(BtPiecePlan) -> int {
    |p: BtPiecePlan| if p.fully_local { p.length as int } else { 0int }
}

/// Appending a plan keeps the sums over the plans before it.
proof fn lemma_plan_sum_push(pieces: Seq<BtPiecePlan>, x: BtPiecePlan, n: int, what: spec_fn(BtPiecePlan) -> int)
    requires
        0 <= n <= pieces.len(),
    ensures
        plan_sum(pieces.push(x), n, what) == plan_sum(pieces, n, what),
    decreases n,
{
    if n > 0 {
        lemma_plan_sum_push(pieces, x, n - 1, what);
    }
}

/// Whether a chunk shares bytes with the range from `start` to `end`.
pub fn chunk_overlaps(c: &ChunkRecord, start: u64, end: u64) -> (overlaps: bool)
    ensures
        overlaps == (overlap(c.offset, chunk_end(*c), start, end) > 0),
{
    let c_end = c.offset.saturating_add(c.length as u64);
    overlap_length(c.offset, c_end, start, end) > 0
}

/// Writes a chunk's bytes into a piece buffer where the chunk lies in it.
pub fn paint(buf: &mut Vec<u8>, piece_offset: u64, piece_end: u64, c: &ChunkRecord, bytes: &Vec<u8>)
    requires
        bytes@.len() == c.length,
        piece_offset <= piece_end,
        old(buf)@.len() == piece_end - piece_offset,
    ensures
        final(buf)@ == painted(old(buf)@, piece_offset, *c, bytes@),
{
    let c_end = c.offset.saturating_add(c.length as u64);
    let start = if c.offset > piece_offset { c.offset } else { piece_offset };
    let end = if c_end < piece_end { c_end } else { piece_end };
    let ghost before = buf@;
    let mut pos = start;
    while pos < end
        invariant
            start <= pos,
            pos <= (if end > start { end } else { start }),
            start == (if c.offset > piece_offset { c.offset } else { piece_offset }),
            end == (if c_end < piece_end { c_end } else { piece_end }),
            c_end == chunk_end(*c),
            bytes@.len() == c.length,
            before.len() == piece_end - piece_offset,
            buf@.len() == before.len(),
            forall|x: int| 0 <= x < buf@.len() ==> #[trigger] buf@[x] == (if start <= piece_offset + x < pos {
                bytes@[piece_offset + x - c.offset]
            } else {
                before[x]
            }),
        decreases end - pos,
    {
        buf.set((pos - piece_offset) as usize, bytes[(pos - c.offset) as usize]);
        pos = pos + 1;
    }
    assert forall|x: int| 0 <= x < buf@.len() implies #[trigger] buf@[x] == painted(before, piece_offset, *c, bytes@)[x] by {
        let q = piece_offset + x;
        assert((c.offset <= q && q < chunk_end(*c)) == (start <= q && q < pos));
    }
    assert(buf@ =~= painted(before, piece_offset, *c, bytes@));
}

/// Plans how the local index covers the pieces of a torrent. `local` holds,
/// for each chunk of the descriptor, its verified bytes when the index has it.
#[verifier::rlimit(60)]
pub fn plan_v1_bridge(torrent: &TorrentV1, descriptor: &TargetDescriptor, local: &Vec<Option<Vec<u8>>>) -> (plan: Result<
    BtBridgePlan,
    BridgeError,
>)
    requires
        local@.len() == descriptor.chunks@.len(),
        forall|i: int| 0 <= i < local@.len() && #[trigger] local@[i] is Some ==> local@[i]->Some_0@.len() == descriptor.chunks@[i].length,
    ensures
        descriptor_check(*descriptor) is Err ==> plan == Err::<BtBridgePlan, BridgeError>(BridgeError::Descriptor(descriptor_check(*descriptor)->Err_0)),
        descriptor_check(*descriptor) is Ok && torrent.total_length != descriptor.target.size ==> plan == Err::<BtBridgePlan, BridgeError>(BridgeError::SizeMismatch),
        plan matches Err(BridgeError::Descriptor(e)) ==> descriptor_check(*descriptor) is Err && descriptor_check(*descriptor)->Err_0 == e,
        plan matches Err(BridgeError::SizeMismatch) ==> descriptor_check(*descriptor) is Ok && torrent.total_length != descriptor.target.size,
        plan matches Err(BridgeError::OffsetOverflow) ==> torrent.piece_sha1@.len() > 0 && (torrent.piece_sha1@.len() - 1) * torrent.piece_length > u64::MAX,
        plan matches Err(BridgeError::PieceSha1(p)) ==> p < torrent.piece_sha1@.len() && !piece_hash_ok(*torrent, descriptor.chunks@, local@, p as int)
            && forall|q: int| 0 <= q < p ==> #[trigger] piece_hash_ok(*torrent, descriptor.chunks@, local@, q),
        plan matches Ok(r) ==> {
            &&& descriptor_check(*descriptor) is Ok
            &&& torrent.total_length == descriptor.target.size
            &&& (torrent.piece_sha1@.len() == 0 || (torrent.piece_sha1@.len() - 1) * torrent.piece_length <= u64::MAX)
            &&& r.pieces@.len() == torrent.piece_sha1@.len()
            &&& forall|p: int| 0 <= p < r.pieces@.len() ==> #[trigger] piece_plan_matches(r.pieces@[p], *torrent, descriptor.chunks@, local@, p)
            &&& forall|p: int| 0 <= p < r.pieces@.len() ==> #[trigger] piece_hash_ok(*torrent, descriptor.chunks@, local@, p)
            &&& r.torrent_name == torrent.name
            &&& r.descriptor_name == descriptor.target.name
            &&& r.names_match == (torrent.name@ == descriptor.target.name@)
            &&& r.info_hash_sha1 == torrent.info_hash_sha1
            &&& r.target_bytes == torrent.total_length
            &&& r.piece_length == torrent.piece_length
            &&& r.total_pieces == r.pieces@.len()
            &&& r.fully_local_pieces == plan_sum(r.pieces@, r.pieces@.len() as int, fully_local_of())
            &&& r.partially_local_pieces == plan_sum(r.pieces@, r.pieces@.len() as int, partial_of())
            &&& r.missing_pieces == r.total_pieces - r.fully_local_pieces
            &&& r.locally_covered_bytes == saturated(plan_sum(r.pieces@, r.pieces@.len() as int, covered_of()))
            &&& r.missing_bytes == if r.locally_covered_bytes < r.target_bytes { r.target_bytes - r.locally_covered_bytes } else { 0 }
            &&& r.fully_reconstructable_piece_bytes == saturated(plan_sum(r.pieces@, r.pieces@.len() as int, rebuildable_of()))
        },
{
    match descriptor.validate() {
        Ok(()) => {},
        Err(e) => {
            return Err(BridgeError::Descriptor(e));
        },
    }
    if torrent.total_length != descriptor.target.size {
        return Err(BridgeError::SizeMismatch);
    }
    let mut pieces: Vec<BtPiecePlan> = Vec::new();
    let mut covered_total: u128 = 0;
    let mut rebuildable: u128 = 0;
    let mut fully: u64 = 0;
    let mut partially: u64 = 0;
    let n = torrent.piece_sha1.len();
    let mut p: usize = 0;
    while p < n
        invariant
            n == torrent.piece_sha1@.len(),
            descriptor_check(*descriptor) is Ok,
            torrent.total_length == descriptor.target.size,
            p <= n,
            pieces@.len() == p,
            local@.len() == descriptor.chunks@.len(),
            forall|i: int| 0 <= i < local@.len() && #[trigger] local@[i] is Some ==> local@[i]->Some_0@.len() == descriptor.chunks@[i].length,
            forall|q: int| 0 <= q < p ==> #[trigger] piece_plan_matches(pieces@[q], *torrent, descriptor.chunks@, local@, q),
            forall|q: int| 0 <= q < p ==> #[trigger] piece_hash_ok(*torrent, descriptor.chunks@, local@, q),
            fully <= p,
            partially <= p,
            fully == plan_sum(pieces@, p as int, fully_local_of()),
            partially == plan_sum(pieces@, p as int, partial_of()),
            covered_total == plan_sum(pieces@, p as int, covered_of()),
            rebuildable == plan_sum(pieces@, p as int, rebuildable_of()),
            covered_total <= p * 0xffff_ffff_ffff_ffffu128,
            rebuildable <= p * 0xffff_ffff_ffff_ffffu128,
            p > 0 ==> (p - 1) * torrent.piece_length <= u64::MAX,
        decreases n - p,
    {
        let offset = match (p as u64).checked_mul(torrent.piece_length) {
            Some(o) => o,
            None => {
                assert((n - 1) * torrent.piece_length >= p * torrent.piece_length) by (nonlinear_arith)
                    requires
                        p <= n - 1,
                ;
                return Err(BridgeError::OffsetOverflow);
            },
        };
        let sum = offset.saturating_add(torrent.piece_length);
        let end = if sum < torrent.total_length { sum } else { torrent.total_length };
        let length = if end > offset { end - offset } else { 0 };
        let mut buffer: Vec<u8> = Vec::new();
        let mut z: u64 = 0;
        while z < length
            invariant
                z <= length,
                buffer@.len() == z,
                forall|x: int| 0 <= x < z ==> #[trigger] buffer@[x] == 0u8,
            decreases length - z,
        {
            buffer.push(0);
            z = z + 1;
        }
        assert(buffer@ =~= assembled(descriptor.chunks@, local@, offset, length as nat, 0));
        let mut covered: u128 = 0;
        let mut k: usize = 0;
        while k < descriptor.chunks.len()
            invariant
                k <= descriptor.chunks@.len(),
                local@.len() == descriptor.chunks@.len(),
                forall|i: int| 0 <= i < local@.len() && #[trigger] local@[i] is Some ==> local@[i]->Some_0@.len() == descriptor.chunks@[i].length,
                offset <= end || length == 0,
                length == (if end > offset { end - offset } else { 0 }),
                covered == local_cover(descriptor.chunks@, local@, offset, end, k as int),
                covered <= k * 0xffff_ffff_ffff_ffffu128,
                buffer@.len() == length,
                buffer@ == assembled(descriptor.chunks@, local@, offset, length as nat, k as int),
            decreases descriptor.chunks@.len() - k,
        {
            let c = &descriptor.chunks[k];
            match &local[k] {
                Some(bytes) => {
                    let c_end = c.offset.saturating_add(c.length as u64);
                    covered = covered + overlap_length(c.offset, c_end, offset, end) as u128;
                    if end > offset {
                        paint(&mut buffer, offset, end, c, bytes);
                    } else {
                        assert(buffer@ =~= painted(buffer@, offset, *c, bytes@));
                    }
                },
                None => {},
            }
            k = k + 1;
        }
        let fully_local = covered >= length as u128;
        let covered64: u64 = if covered > u64::MAX as u128 { u64::MAX } else { covered as u64 };
        if fully_local {
            let digest = sha1(buffer.as_slice());
            let actual = hex_encode(&digest);
            if actual != torrent.piece_sha1[p] {
                return Err(BridgeError::PieceSha1(p as u64));
            }
        }
        let piece = BtPiecePlan {
            index: p as u64,
            offset,
            length,
            expected_sha1: torrent.piece_sha1[p].clone(),
            locally_covered_bytes: covered64,
            missing_bytes: if covered < length as u128 { length - covered as u64 } else { 0 },
            fully_local,
            local_sha1_verified: fully_local,
        };
        let ghost old_pieces = pieces@;
        pieces.push(piece);
        proof {
            lemma_plan_sum_push(old_pieces, piece, p as int, fully_local_of());
            lemma_plan_sum_push(old_pieces, piece, p as int, partial_of());
            lemma_plan_sum_push(old_pieces, piece, p as int, covered_of());
            lemma_plan_sum_push(old_pieces, piece, p as int, rebuildable_of());
        }
        covered_total = covered_total + covered64 as u128;
        if fully_local {
            fully = fully + 1;
            rebuildable = rebuildable + length as u128;
        } else if covered64 > 0 {
            partially = partially + 1;
        }
        p = p + 1;
    }
    let covered_bytes: u64 = if covered_total > u64::MAX as u128 { u64::MAX } else { covered_total as u64 };
    let rebuildable_bytes: u64 = if rebuildable > u64::MAX as u128 { u64::MAX } else { rebuildable as u64 };
    Ok(
        BtBridgePlan {
            torrent_name: torrent.name.clone(),
            descriptor_name: descriptor.target.name.clone(),
            names_match: torrent.name == descriptor.target.name,
            info_hash_sha1: torrent.info_hash_sha1.clone(),
            target_bytes: torrent.total_length,
            piece_length: torrent.piece_length,
            total_pieces: n as u64,
            fully_local_pieces: fully,
            partially_local_pieces: partially,
            missing_pieces: n as u64 - fully,
            locally_covered_bytes: covered_bytes,
            missing_bytes: if covered_bytes < torrent.total_length { torrent.total_length - covered_bytes } else { 0 },
            fully_reconstructable_piece_bytes: rebuildable_bytes,
            pieces,
        },
    )
}

} // verus!
