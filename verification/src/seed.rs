//! Seeding: the bitfields offered to peers, the requests accepted from them,
//! and the fair order in which uploads are paced.

use vstd::prelude::*;
use std::collections::BTreeSet;

use crate::metadata::TorrentV1;
use crate::peer::{
    bitfield_read, high_bit_first, law_bitfield_high_bit_first, lemma_shl_pow2, piece_size,
    spare_bits_set, WireError, MESSAGE_CANCEL, MESSAGE_CHOKE, MESSAGE_INTERESTED, MESSAGE_NOT_INTERESTED,
    MESSAGE_REQUEST,
};
use crate::tracker::{be_u32, read_u32};

verus! {

broadcast use vstd::std_specs::btree::group_btree_axioms;

/// The largest block a peer may request (16 KiB).
pub const SEED_BLOCK_LENGTH: u32 = 16_384;

/// The bitfield of a seed that has every piece: all bits set, spare bits clear.
pub open spec fn complete_bitfield_of(piece_count: int) -> Seq<u8> {
    let len = (piece_count + 7) / 8;
    let spare = len * 8 - piece_count;
    Seq::new(
        len as nat,
        |i: int|
            if i == len - 1 && spare > 0 {
                (0xffu8 << (spare as u8)) as u8
            } else {
                0xffu8
            },
    )
}

pub fn complete_bitfield(piece_count: usize) -> (bitfield: Vec<u8>)
    ensures
        bitfield@ == complete_bitfield_of(piece_count as int),
{
    let len = piece_count / 8 + if piece_count % 8 == 0 {
        0
    } else {
        1
    };
    assert(len == (piece_count + 7) / 8);
    let spare: usize = if piece_count % 8 == 0 {
        0
    } else {
        8 - piece_count % 8
    };
    assert(spare == len * 8 - piece_count);
    let mut bitfield: Vec<u8> = Vec::new();
    let mut i: usize = 0;
    while i < len
        invariant
            i <= len,
            len == (piece_count + 7) / 8,
            spare == len * 8 - piece_count,
            bitfield@.len() == i,
            forall|j: int| 0 <= j < i ==> #[trigger] bitfield@[j] == complete_bitfield_of(piece_count as int)[j],
        decreases len - i,
    {
        if i == len - 1 && spare > 0 {
            bitfield.push(0xffu8 << (spare as u8));
        } else {
            bitfield.push(0xff);
        }
        i = i + 1;
    }
    assert(bitfield@ =~= complete_bitfield_of(piece_count as int));
    bitfield
}

/// The bitfield of the pieces a seed has: bit `i` (most significant first) is set
/// exactly when piece `i` is available.
pub open spec fn availability_bitfield_of(available: Seq<bool>) -> Seq<u8> {
    Seq::new(
        ((available.len() + 7) / 8) as nat,
        |byte: int| bits_byte(available, byte, 8),
    )
}

/// The byte for positions `8 * byte ..` of the first `k` bits.
pub open spec fn bits_byte(available: Seq<bool>, byte: int, k: int) -> u8
    decreases k,
{
    if k <= 0 {
        0
    } else {
        let i = 8 * byte + (k - 1);
        let rest = bits_byte(available, byte, k - 1);
        if i < available.len() && available[i] {
            (rest | (1u8 << ((7 - (k - 1)) as u8))) as u8
        } else {
            rest
        }
    }
}

pub fn availability_bitfield(available: &[bool]) -> (bitfield: Vec<u8>)
    ensures
        bitfield@ == availability_bitfield_of(available@),
{
    let n = available.len();
    let len = n / 8 + if n % 8 == 0 {
        0
    } else {
        1
    };
    assert(len == (n + 7) / 8);
    let mut bitfield: Vec<u8> = Vec::new();
    let mut byte: usize = 0;
    while byte < len
        invariant
            byte <= len,
            n == available@.len(),
            len == (n + 7) / 8,
            bitfield@.len() == byte,
            forall|j: int| 0 <= j < byte ==> #[trigger] bitfield@[j] == bits_byte(available@, j, 8),
        decreases len - byte,
    {
        let mut value: u8 = 0;
        let mut k: usize = 0;
        while k < 8
            invariant
                k <= 8,
                byte < len,
                n == available@.len(),
                len == (n + 7) / 8,
                value == bits_byte(available@, byte as int, k as int),
            decreases 8 - k,
        {
            let i = 8 * byte + k;
            if i < n && available[i] {
                value = value | (1u8 << ((7 - k) as u8));
            }
            k = k + 1;
        }
        bitfield.push(value);
        byte = byte + 1;
    }
    assert(bitfield@ =~= availability_bitfield_of(available@));
    bitfield
}

/// What a peer's REQUEST or CANCEL asks for, checked against the torrent.
pub open spec fn block_message_of(payload: Seq<u8>, total: u64, piece_length: u64, piece_count: int) -> Result<
    (u32, u32, u32),
    WireError,
> {
    if payload.len() != 12 {
        Err(WireError::MalformedRequest)
    } else {
        let piece = be_u32(payload[0], payload[1], payload[2], payload[3]);
        let begin = be_u32(payload[4], payload[5], payload[6], payload[7]);
        let length = be_u32(payload[8], payload[9], payload[10], payload[11]);
        if length == 0 || length > SEED_BLOCK_LENGTH {
            Err(WireError::InvalidBlockLength)
        } else if piece >= piece_count {
            Err(WireError::PieceOutsideTorrent)
        } else if piece * piece_length > u64::MAX {
            Err(WireError::PieceOffsetOverflow)
        } else if begin + length > piece_size(total, piece_length, piece as int) {
            Err(WireError::BlockOutsidePiece)
        } else {
            Ok((piece, begin, length))
        }
    }
}

/// Reads and checks the (piece, begin, length) of a peer's REQUEST or CANCEL.
pub fn parse_block_message(payload: &[u8], torrent: &TorrentV1) -> (block: Result<(u32, u32, u32), WireError>)
    ensures
        block == block_message_of(
            payload@,
            torrent.total_length,
            torrent.piece_length,
            torrent.piece_sha1@.len() as int,
        ),
{
    if payload.len() != 12 {
        return Err(WireError::MalformedRequest);
    }
    let piece = read_u32(payload, 0);
    let begin = read_u32(payload, 4);
    let length = read_u32(payload, 8);
    if length == 0 || length > SEED_BLOCK_LENGTH {
        return Err(WireError::InvalidBlockLength);
    }
    if piece as usize >= torrent.piece_sha1.len() {
        return Err(WireError::PieceOutsideTorrent);
    }
    let size = match crate::peer::piece_length(torrent, piece as u64) {
        Ok(size) => size,
        Err(_) => {
            return Err(WireError::PieceOffsetOverflow);
        },
    };
    if begin as u64 + length as u64 > size {
        return Err(WireError::BlockOutsidePiece);
    }
    Ok((piece, begin, length))
}

/// Why an upload rate was refused.
#[derive(Debug, Clone, Copy, PartialEq, Eq, Structural)]
pub enum RateError {
    /// A rate limit of zero bytes per second.
    Zero,
}

/// Refuses a zero upload rate; no limit, or a positive one, is accepted.
pub fn validate_upload_rate(rate_bytes_per_second: Option<u64>) -> (result: Result<(), RateError>)
    ensures
        result is Err <==> rate_bytes_per_second == Some(0u64),
{
    match rate_bytes_per_second {
        Some(0) => Err(RateError::Zero),
        _ => Ok(()),
    }
}

/// The name of the upload scheduler a rate selects.
pub fn upload_scheduler_name(rate_bytes_per_second: Option<u64>) -> (name: &'static str)
    ensures
        name == if rate_bytes_per_second is Some {
            "fifo-block-fair"
        } else {
            "unlimited"
        },
{
    if rate_bytes_per_second.is_some() {
        "fifo-block-fair"
    } else {
        "unlimited"
    }
}

/// Nanoseconds that sending `bytes` takes at `rate` bytes per second,
/// rounded up, at least one, at most `u64::MAX`.
pub open spec fn send_nanos(bytes: u64, rate: u64) -> int {
    let exact = (bytes as int * 1_000_000_000 + rate - 1) / (rate as int);
    if exact < 1 {
        1
    } else if exact > u64::MAX {
        u64::MAX as int
    } else {
        exact
    }
}

pub fn upload_delay_nanos(bytes: u64, rate: u64) -> (nanos: u64)
    requires
        rate > 0,
    ensures
        nanos == send_nanos(bytes, rate),
{
    assert((bytes as u128) * 1_000_000_000u128 <= 0xffff_ffff_ffff_ffffu128 * 1_000_000_000u128) by (nonlinear_arith);
    let product = (bytes as u128) * 1_000_000_000u128;
    let exact = product / (rate as u128) + if product % (rate as u128) == 0 {
        0
    } else {
        1
    };
    proof {
        let p = product as int;
        let r = rate as int;
        let e = exact as int;
        assert(e == (p + r - 1) / r) by (nonlinear_arith)
            requires
                r > 0,
                p >= 0,
                e == p / r + if p % r == 0 { 0int } else { 1int },
        ;
    }
    if exact < 1 {
        1
    } else if exact > u64::MAX as u128 {
        u64::MAX
    } else {
        exact as u64
    }
}

/// The order in which paced uploads take turns: tickets are served in
/// issue order, and cancelled tickets are skipped.
#[derive(Debug)]
pub struct UploadTickets {
    pub next_ticket: u64,
    pub serving_ticket: u64,
    pub cancelled_tickets: BTreeSet<u64>,
}

impl UploadTickets {
    /// Every cancelled ticket waits between the one being served and the
    /// next to be issued.
    pub open spec fn wf(&self) -> bool {
        &&& self.serving_ticket <= self.next_ticket
        &&& forall|t: u64|
            #[trigger] self.cancelled_tickets@.contains(t) ==> self.serving_ticket < t
                < self.next_ticket
    }

    pub fn new() -> (tickets: UploadTickets)
        ensures
            tickets.wf(),
            tickets.next_ticket == 0,
            tickets.serving_ticket == 0,
            tickets.cancelled_tickets@ == Set::<u64>::empty(),
    {
        UploadTickets { next_ticket: 0, serving_ticket: 0, cancelled_tickets: BTreeSet::new() }
    }

    /// Issues the next ticket.
    pub fn take_ticket(&mut self) -> (ticket: u64)
        requires
            old(self).wf(),
            old(self).next_ticket < u64::MAX,
        ensures
            final(self).wf(),
            ticket == old(self).next_ticket,
            final(self).next_ticket == old(self).next_ticket + 1,
            final(self).serving_ticket == old(self).serving_ticket,
            final(self).cancelled_tickets@ == old(self).cancelled_tickets@,
    {
        let ticket = self.next_ticket;
        self.next_ticket = self.next_ticket + 1;
        ticket
    }

    /// Moves to the next ticket that is not cancelled.
    pub fn advance(&mut self)
        requires
            old(self).wf(),
            old(self).serving_ticket < old(self).next_ticket,
        ensures
            final(self).wf(),
            final(self).next_ticket == old(self).next_ticket,
            old(self).serving_ticket < final(self).serving_ticket <= old(self).next_ticket,
            !final(self).cancelled_tickets@.contains(final(self).serving_ticket),
            forall|t: u64|
                old(self).serving_ticket < t < final(self).serving_ticket ==> old(
                    self,
                ).cancelled_tickets@.contains(t),
            final(self).cancelled_tickets@ == old(self).cancelled_tickets@.filter(
                |t: u64| t > final(self).serving_ticket,
            ),
    {
        broadcast use vstd::std_specs::btree::group_btree_axioms;
        self.serving_ticket = self.serving_ticket + 1;
        while self.cancelled_tickets.remove(&self.serving_ticket)
            invariant
                old(self).serving_ticket < self.serving_ticket <= self.next_ticket,
                self.next_ticket == old(self).next_ticket,
                forall|t: u64|
                    #[trigger] self.cancelled_tickets@.contains(t) ==> self.serving_ticket <= t
                        < self.next_ticket,
                forall|t: u64|
                    old(self).serving_ticket < t < self.serving_ticket ==> old(
                        self,
                    ).cancelled_tickets@.contains(t),
                self.cancelled_tickets@ == old(self).cancelled_tickets@.filter(
                    |t: u64| t >= self.serving_ticket,
                ),
            decreases self.next_ticket - self.serving_ticket,
        {
            self.serving_ticket = self.serving_ticket + 1;
        }
        assert(self.cancelled_tickets@ =~= old(self).cancelled_tickets@.filter(
            |t: u64| t > self.serving_ticket,
        ));
    }

    /// Gives up a ticket: when it is being served the turn passes on,
    /// when it is still waiting it will be skipped.
    pub fn cancel(&mut self, ticket: u64)
        requires
            old(self).wf(),
            ticket < old(self).next_ticket,
        ensures
            final(self).wf(),
            final(self).next_ticket == old(self).next_ticket,
            ticket < old(self).serving_ticket ==> final(self).serving_ticket == old(self).serving_ticket
                && final(self).cancelled_tickets@ == old(self).cancelled_tickets@,
            ticket > old(self).serving_ticket ==> final(self).serving_ticket == old(self).serving_ticket
                && final(self).cancelled_tickets@ == old(self).cancelled_tickets@.insert(ticket),
            ticket == old(self).serving_ticket ==> old(self).serving_ticket < final(self).serving_ticket
                && !final(self).cancelled_tickets@.contains(final(self).serving_ticket),
    {
        broadcast use vstd::std_specs::btree::group_btree_axioms;
        if ticket == self.serving_ticket {
            self.advance();
        } else if ticket > self.serving_ticket {
            self.cancelled_tickets.insert(ticket);
        }
    }
}


/// What a seed does with one message from a downloading peer.
#[derive(Debug, Clone, Copy, PartialEq, Eq, Structural)]
pub enum SeedAction {
    /// Send UNCHOKE: the peer is interested and was still choked.
    Unchoke,
    /// Send this block (piece, begin, length) in a PIECE message.
    Serve(u32, u32, u32),
    /// Count a CANCEL of a well-formed block.
    CancelSeen,
    /// The peer is not interested: end the connection.
    Stop,
    /// Nothing to do.
    Ignore,
}

/// Why a seed closes a peer's connection.
#[derive(Debug, Clone, Copy, PartialEq, Eq, Structural)]
pub enum SeedRefusal {
    /// A REQUEST before the seed unchoked the peer.
    RequestBeforeUnchoke,
    /// A REQUEST for a piece the seed does not advertise.
    Unavailable,
    /// An INTERESTED, NOT_INTERESTED or CHOKE message with a payload.
    NonEmptyPayload,
    Wire(WireError),
}

/// The seed's answer to a message, given whether it unchoked the peer and
/// which pieces it advertises; with whether the peer is unchoked afterwards.
pub open spec fn seed_answer(
    unchoked: bool,
    message_id: u8,
    payload: Seq<u8>,
    torrent: TorrentV1,
    available: Seq<bool>,
) -> (Result<SeedAction, SeedRefusal>, bool) {
    let blocks = block_message_of(payload, torrent.total_length, torrent.piece_length, torrent.piece_sha1@.len() as int);
    if message_id == MESSAGE_INTERESTED {
        if payload.len() != 0 {
            (Err(SeedRefusal::NonEmptyPayload), unchoked)
        } else if unchoked {
            (Ok(SeedAction::Ignore), true)
        } else {
            (Ok(SeedAction::Unchoke), true)
        }
    } else if message_id == MESSAGE_NOT_INTERESTED || message_id == MESSAGE_CHOKE {
        if payload.len() != 0 {
            (Err(SeedRefusal::NonEmptyPayload), unchoked)
        } else if message_id == MESSAGE_NOT_INTERESTED {
            (Ok(SeedAction::Stop), unchoked)
        } else {
            (Ok(SeedAction::Ignore), unchoked)
        }
    } else if message_id == MESSAGE_REQUEST {
        if !unchoked {
            (Err(SeedRefusal::RequestBeforeUnchoke), unchoked)
        } else {
            match blocks {
                Err(e) => (Err(SeedRefusal::Wire(e)), unchoked),
                Ok((piece, begin, length)) => if piece < available.len() && available[piece as int] {
                    (Ok(SeedAction::Serve(piece, begin, length)), unchoked)
                } else {
                    (Err(SeedRefusal::Unavailable), unchoked)
                },
            }
        }
    } else if message_id == MESSAGE_CANCEL {
        match blocks {
            Err(e) => (Err(SeedRefusal::Wire(e)), unchoked),
            Ok(_) => (Ok(SeedAction::CancelSeen), unchoked),
        }
    } else {
        (Ok(SeedAction::Ignore), unchoked)
    }
}

/// Decides a seed's answer to one peer message: UNCHOKE once an interested
/// peer is choked, blocks only to an unchoked peer and only of advertised
/// pieces, and an end on NOT_INTERESTED.
pub fn seed_step(
    unchoked: &mut bool,
    message_id: u8,
    payload: &[u8],
    torrent: &TorrentV1,
    available: &[bool],
) -> (action: Result<SeedAction, SeedRefusal>)
    ensures
        (action, *final(unchoked)) == seed_answer(*old(unchoked), message_id, payload@, *torrent, available@),
{
    if message_id == MESSAGE_INTERESTED {
        if payload.len() != 0 {
            return Err(SeedRefusal::NonEmptyPayload);
        }
        if *unchoked {
            return Ok(SeedAction::Ignore);
        }
        *unchoked = true;
        Ok(SeedAction::Unchoke)
    } else if message_id == MESSAGE_NOT_INTERESTED || message_id == MESSAGE_CHOKE {
        if payload.len() != 0 {
            return Err(SeedRefusal::NonEmptyPayload);
        }
        if message_id == MESSAGE_NOT_INTERESTED {
            Ok(SeedAction::Stop)
        } else {
            Ok(SeedAction::Ignore)
        }
    } else if message_id == MESSAGE_REQUEST {
        if !*unchoked {
            return Err(SeedRefusal::RequestBeforeUnchoke);
        }
        match parse_block_message(payload, torrent) {
            Err(e) => Err(SeedRefusal::Wire(e)),
            Ok((piece, begin, length)) => if (piece as usize) < available.len() && available[piece as usize] {
                Ok(SeedAction::Serve(piece, begin, length))
            } else {
                Err(SeedRefusal::Unavailable)
            },
        }
    } else if message_id == MESSAGE_CANCEL {
        match parse_block_message(payload, torrent) {
            Err(e) => Err(SeedRefusal::Wire(e)),
            Ok(_) => Ok(SeedAction::CancelSeen),
        }
    } else {
        Ok(SeedAction::Ignore)
    }
}

/// Setting bit `0x80 >> m` of a byte sets that bit and keeps every other.
proof fn lemma_or_high_bit(rest: u8, m: u8, j: u8)
    requires
        m < 8,
        j < 8,
    ensures
        (((rest | (1u8 << ((7 - m) as u8))) & (0x80u8 >> j)) != 0u8) == (((rest & (0x80u8 >> j))
            != 0u8) || j == m),
{
    assert((((rest | (1u8 << ((7 - m) as u8))) & (0x80u8 >> j)) != 0u8) == (((rest & (0x80u8
        >> j)) != 0u8) || j == m)) by (bit_vector)
        requires
            m < 8,
            j < 8,
    ;
}

/// Bit `0x80 >> j` of the byte built from the first `k` positions is set
/// exactly when `j < k` and position `8 * byte + j` is available.
proof fn lemma_bits_byte(available: Seq<bool>, byte: int, k: int, j: int)
    requires
        0 <= k <= 8,
        0 <= j < 8,
    ensures
        ((bits_byte(available, byte, k) & (0x80u8 >> (j as u8))) != 0u8) == (j < k && 8 * byte + j
            < available.len() && available[8 * byte + j]),
    decreases k,
{
    if k == 0 {
        let jj = j as u8;
        assert((0u8 & (0x80u8 >> jj)) == 0u8) by (bit_vector);
    } else {
        lemma_bits_byte(available, byte, k - 1, j);
        let i = 8 * byte + (k - 1);
        if i < available.len() && available[i] {
            let rest = bits_byte(available, byte, k - 1);
            let m = (k - 1) as u8;
            lemma_or_high_bit(rest, m, j as u8);
            assert(((7 - m) as u8) == ((7 - (k - 1)) as u8));
        }
    }
}

/// The advertised bitfield has one byte for every eight pieces and is laid out
/// high bit first: bit `0x80 >> (i % 8)` of byte `i / 8` is set exactly when
/// piece `i` is available, so piece 0 is the high bit of the first byte, and
/// the bits past the last piece are clear.
pub proof fn law_availability_bitfield_high_bit_first(available: Seq<bool>, bitfield: Seq<u8>)
    requires
        bitfield == availability_bitfield_of(available),
    ensures
        bitfield.len() == (available.len() + 7) / 8,
        forall|i: int|
            0 <= i < available.len() ==> #[trigger] high_bit_first(bitfield, i) == available[i],
        forall|i: int|
            available.len() <= i < bitfield.len() * 8 ==> !#[trigger] high_bit_first(bitfield, i),
{
    assert forall|i: int| 0 <= i < bitfield.len() * 8 implies #[trigger] high_bit_first(bitfield, i)
        == (i < available.len() && available[i]) by {
        lemma_bits_byte(available, i / 8, 8, i % 8);
        assert(8 * (i / 8) + i % 8 == i);
    }
}

/// Setting bit `0x80 >> m` of a byte whose bits below the top `m` are clear
/// leaves the bits below the top `m + 1` clear.
proof fn lemma_low_bits_stay_clear(rest: u8, m: u8)
    requires
        m < 8,
        rest & (0xffu8 >> m) == 0,
    ensures
        (rest | (1u8 << ((7 - m) as u8))) & (0xffu8 >> ((m + 1) as u8)) == 0,
        rest & (0xffu8 >> ((m + 1) as u8)) == 0,
{
    assert((rest | (1u8 << ((7 - m) as u8))) & (0xffu8 >> ((m + 1) as u8)) == 0 && rest & (0xffu8
        >> ((m + 1) as u8)) == 0) by (bit_vector)
        requires
            m < 8,
            rest & (0xffu8 >> m) == 0,
    ;
}

/// The byte built from the first `k` positions has no bit below its top `k`.
proof fn lemma_bits_byte_low_clear(available: Seq<bool>, byte: int, k: int)
    requires
        0 <= k <= 8,
    ensures
        bits_byte(available, byte, k) & (0xffu8 >> (k as u8)) == 0,
    decreases k,
{
    if k == 0 {
        assert(0u8 & (0xffu8 >> 0u8) == 0) by (bit_vector);
    } else {
        lemma_bits_byte_low_clear(available, byte, k - 1);
        let m = (k - 1) as u8;
        lemma_low_bits_stay_clear(bits_byte(available, byte, k - 1), m);
        assert(((7 - m) as u8) == ((7 - (k - 1)) as u8));
        assert(((m + 1) as u8) == (k as u8));
    }
}

/// Positions past the end add no bit to a byte.
proof fn lemma_bits_byte_past_end(available: Seq<bool>, byte: int, k0: int, k: int)
    requires
        0 <= k0 <= k <= 8,
        8 * byte + k0 >= available.len(),
    ensures
        bits_byte(available, byte, k) == bits_byte(available, byte, k0),
    decreases k - k0,
{
    if k > k0 {
        lemma_bits_byte_past_end(available, byte, k0, k - 1);
    }
}

/// A peer reads back what a seed advertises: reading the advertised bitfield
/// over as many pieces succeeds and marks exactly the available pieces.
pub proof fn law_advertised_bitfield_reads_back(
    available: Seq<bool>,
    before: Seq<bool>,
    after: Seq<bool>,
    result: Result<(), WireError>,
)
    requires
        before.len() == available.len(),
        bitfield_read(availability_bitfield_of(available), before, after, result),
    ensures
        result == Ok::<(), WireError>(()),
        after == available,
{
    let payload = availability_bitfield_of(available);
    let n = available.len() as int;
    law_availability_bitfield_high_bit_first(available, payload);
    law_bitfield_high_bit_first(payload, before, after, result);
    assert(after =~= available) by {
        assert forall|i: int| 0 <= i < n implies after[i] == available[i] by {
            assert(high_bit_first(payload, i) == available[i]);
        }
    }
    let spare = payload.len() * 8 - n;
    if spare > 0 {
        let byte = payload.len() - 1;
        let s = spare as u8;
        let k0 = 8 - spare;
        assert(0 < spare < 8);
        lemma_bits_byte_past_end(available, byte, k0, 8);
        lemma_bits_byte_low_clear(available, byte, k0);
        let last = payload.last();
        assert(last == bits_byte(available, byte, k0));
        assert((k0 as u8) == ((8 - s) as u8));
        assert(last & (0xffu8 >> ((8 - s) as u8)) == last % (1u8 << s)) by (bit_vector)
            requires
                0 < s < 8,
        ;
        lemma_shl_pow2(s);
        assert(!spare_bits_set(payload, n));
    }
}

/// The bitfield of a complete torrent marks every piece, high bit first, and
/// leaves the bits past the last piece clear.
pub proof fn law_complete_bitfield_marks_every_piece(piece_count: int)
    requires
        piece_count >= 0,
    ensures
        complete_bitfield_of(piece_count).len() == (piece_count + 7) / 8,
        forall|i: int|
            0 <= i < complete_bitfield_of(piece_count).len() * 8 ==> #[trigger] high_bit_first(
                complete_bitfield_of(piece_count),
                i,
            ) == (i < piece_count),
{
    let bytes = complete_bitfield_of(piece_count);
    let len = (piece_count + 7) / 8;
    let spare = len * 8 - piece_count;
    assert forall|i: int| 0 <= i < bytes.len() * 8 implies #[trigger] high_bit_first(bytes, i) == (i
        < piece_count) by {
        let j = (i % 8) as u8;
        if i / 8 == len - 1 && spare > 0 {
            let s = spare as u8;
            assert(0 < s < 8);
            assert((((0xffu8 << s) as u8) & (0x80u8 >> j)) != 0u8 <==> j < 8 - s) by (bit_vector)
                requires
                    0 < s < 8,
                    j < 8,
            ;
        } else {
            assert((0xffu8 & (0x80u8 >> j)) != 0u8) by (bit_vector)
                requires
                    j < 8,
            ;
        }
    }
}
} // verus!
