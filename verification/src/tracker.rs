//! Tracker announces: the requests sent, the answers checked, and the order
//! in which trackers are tried.

use vstd::prelude::*;
use vstd::string::{StrSliceExecFns, StringExecFns};

use crate::codec::{hex_decode, hex_decoded, sha1, sha1_digest};
use crate::metadata::{
    be_number, be_value, compact_v4, compact_v6, parse_compact_ipv4_peers, parse_compact_ipv6_peers,
    strings_view, tiers_view, PeerAddr, TorrentV1,
};
use crate::text::{ascii_chars, ascii_string, decimal_text, push_decimal};

verus! {

/// The upper-case hex digit of a value below 16.
pub open spec fn hex_digit_upper(v: int) -> u8 {
    if v < 10 {
        (48 + v) as u8
    } else {
        (55 + v) as u8
    }
}

/// Every byte written as `%` and two upper-case hex digits.
pub open spec fn percent_encoded(b: Seq<u8>) -> Seq<u8> {
    Seq::new(
        (3 * b.len()) as nat,
        |i: int|
            if i % 3 == 0 {
                37u8
            } else if i % 3 == 1 {
                hex_digit_upper(b[i / 3] as int / 16)
            } else {
                hex_digit_upper(b[i / 3] as int % 16)
            },
    )
}

/// Percent-encodes every byte, as tracker query parameters need for raw
/// info-hashes and peer ids.
pub fn percent_encode_bytes(bytes: &[u8]) -> (encoded: String)
    ensures
        encoded@ == ascii_chars(percent_encoded(bytes@)),
{
    let mut out: Vec<u8> = Vec::new();
    let mut i: usize = 0;
    while i < bytes.len()
        invariant
            i <= bytes@.len(),
            out@.len() == 3 * i,
            forall|j: int| 0 <= j < 3 * i ==> out@[j] == #[trigger] percent_encoded(bytes@)[j],
        decreases bytes@.len() - i,
    {
        let b = bytes[i];
        let high = b / 16;
        let low = b % 16;
        out.push(37);
        out.push(if high < 10 { 48 + high } else { 55 + high });
        out.push(if low < 10 { 48 + low } else { 55 + low });
        proof {
            assert forall|j: int| 0 <= j < 3 * (i + 1) implies out@[j] == #[trigger] percent_encoded(
                bytes@,
            )[j] by {
                if j >= 3 * i {
                    assert(j / 3 == i);
                }
            }
        }
        i = i + 1;
    }
    assert(out@ =~= percent_encoded(bytes@));
    ascii_string(out.as_slice())
}

/// Position of the first `c` in `s`, or `s.len()` when there is none.
pub open spec fn find_char(s: Seq<char>, c: char) -> int
    decreases s.len(),
{
    if s.len() == 0 {
        0
    } else if s[0] == c {
        0
    } else {
        1 + find_char(s.drop_first(), c)
    }
}

proof fn lemma_find_char(s: Seq<char>, c: char, i: int)
    requires
        0 <= i <= s.len(),
        forall|j: int| 0 <= j < i ==> s[j] != c,
        i < s.len() ==> s[i] == c,
    ensures
        find_char(s, c) == i,
    decreases i,
{
    if i > 0 {
        lemma_find_char(s.drop_first(), c, i - 1);
    }
}

/// A tracker URL with its query replaced by `<redacted>`.
pub open spec fn redacted_url(url: Seq<char>) -> Seq<char> {
    let q = find_char(url, '?');
    if q < url.len() {
        url.subrange(0, q) + "?<redacted>"@
    } else {
        url
    }
}

/// Hides a tracker URL's query, which often holds a private passkey.
pub fn redact_tracker_url(url: &str) -> (redacted: String)
    ensures
        redacted@ == redacted_url(url@),
{
    let n = url.unicode_len();
    let mut i: usize = 0;
    while i < n
        invariant
            n == url@.len(),
            i <= n,
            forall|j: int| 0 <= j < i ==> url@[j] != '?',
        decreases n - i,
    {
        if url.get_char(i) == '?' {
            proof {
                lemma_find_char(url@, '?', i as int);
            }
            let mut out = String::from_str(url.substring_char(0, i));
            out.append("?<redacted>");
            return out;
        }
        i = i + 1;
    }
    proof {
        lemma_find_char(url@, '?', i as int);
    }
    String::from_str(url)
}

/// Why a torrent gives no tracker to announce to.
#[derive(Debug, Clone, Copy, PartialEq, Eq, Structural)]
pub enum TrackerError {
    /// No tracker URL, or only empty tiers.
    NoTracker,
    /// A UDP tracker answered with a response shorter than its header.
    UdpResponseTooShort,
    /// A UDP tracker answered another transaction.
    UdpWrongTransaction,
    /// A UDP tracker reported a failure.
    UdpFailure,
    /// A UDP tracker answered with an unexpected action.
    UdpWrongAction,
}

/// The tracker tiers to try: the override alone, else the announce list,
/// else the single announce URL.
pub open spec fn candidate_tiers(torrent: TorrentV1, tracker_override: Option<Seq<char>>) -> Seq<
    Seq<Seq<char>>,
> {
    match tracker_override {
        Some(t) => seq![seq![t]],
        None => match torrent.announce_list {
            Some(l) => tiers_view(l@),
            None => match torrent.announce {
                Some(a) => seq![seq![a@]],
                None => Seq::empty(),
            },
        },
    }
}

/// Whether tiers hold no tracker at all.
pub open spec fn no_tracker(tiers: Seq<Seq<Seq<char>>>) -> bool {
    forall|i: int| 0 <= i < tiers.len() ==> (#[trigger] tiers[i]).len() == 0
}

fn clone_strings(v: &Vec<String>) -> (c: Vec<String>)
    ensures
        strings_view(c@) == strings_view(v@),
{
    let mut c: Vec<String> = Vec::new();
    let mut i: usize = 0;
    while i < v.len()
        invariant
            i <= v@.len(),
            c@.len() == i,
            forall|j: int| 0 <= j < i ==> (#[trigger] c@[j])@ == v@[j]@,
        decreases v@.len() - i,
    {
        c.push(v[i].clone());
        i = i + 1;
    }
    assert(strings_view(c@) =~= strings_view(v@));
    c
}

/// The tracker tiers to announce to; refused when there is no tracker URL.
pub fn tracker_tiers(torrent: &TorrentV1, tracker_override: Option<&str>) -> (tiers: Result<
    Vec<Vec<String>>,
    TrackerError,
>)
    ensures
        ({
            let expected = candidate_tiers(
                *torrent,
                match tracker_override {
                    Some(t) => Some(t@),
                    None => None,
                },
            );
            &&& tiers is Ok <==> !no_tracker(expected)
            &&& tiers matches Ok(t) ==> tiers_view(t@) == expected
            &&& tiers matches Err(e) ==> e == TrackerError::NoTracker
        }),
{
    let ghost expected = candidate_tiers(
        *torrent,
        match tracker_override {
            Some(t) => Some(t@),
            None => None,
        },
    );
    let mut tiers: Vec<Vec<String>> = Vec::new();
    match tracker_override {
        Some(t) => {
            let mut tier: Vec<String> = Vec::new();
            tier.push(String::from_str(t));
            assert(strings_view(tier@) =~= seq![t@]);
            tiers.push(tier);
            assert(tiers_view(tiers@) =~= expected);
        },
        None => match &torrent.announce_list {
            Some(list) => {
                let mut i: usize = 0;
                while i < list.len()
                    invariant
                        i <= list@.len(),
                        tiers@.len() == i,
                        forall|j: int|
                            0 <= j < i ==> strings_view((#[trigger] tiers@[j])@) == strings_view(
                                list@[j]@,
                            ),
                    decreases list@.len() - i,
                {
                    tiers.push(clone_strings(&list[i]));
                    i = i + 1;
                }
                assert(tiers_view(tiers@) =~= tiers_view(list@));
            },
            None => match &torrent.announce {
                Some(a) => {
                    let mut tier: Vec<String> = Vec::new();
                    tier.push(a.clone());
                    assert(strings_view(tier@) =~= seq![a@]);
                    tiers.push(tier);
                    assert(tiers_view(tiers@) =~= expected);
                },
                None => {
                    assert(tiers_view(tiers@) =~= expected);
                },
            },
        },
    }
    let mut i: usize = 0;
    while i < tiers.len()
        invariant
            i <= tiers@.len(),
            tiers_view(tiers@) == expected,
            expected == candidate_tiers(
                *torrent,
                match tracker_override {
                    Some(t) => Some(t@),
                    None => None,
                },
            ),
            forall|j: int| 0 <= j < i ==> (#[trigger] expected[j]).len() == 0,
        decreases tiers@.len() - i,
    {
        if tiers[i].len() > 0 {
            assert(expected[i as int] == strings_view(tiers@[i as int]@));
            assert(expected[i as int].len() > 0);
            assert(!no_tracker(expected));
            return Ok(tiers);
        }
        assert(expected[i as int] == strings_view(tiers@[i as int]@));
        assert(expected[i as int].len() == 0);
        i = i + 1;
    }
    Err(TrackerError::NoTracker)
}

/// The lifecycle events announced to trackers.
#[derive(Debug, Clone, Copy, PartialEq, Eq, Structural)]
pub enum TrackerEvent {
    Started,
    Stopped,
}

/// The event's name in an HTTP announce.
pub open spec fn event_http_name(event: TrackerEvent) -> &'static str {
    match event {
        TrackerEvent::Started => "started",
        TrackerEvent::Stopped => "stopped",
    }
}

/// The event's code in a UDP announce.
pub open spec fn event_udp_code(event: TrackerEvent) -> u32 {
    match event {
        TrackerEvent::Started => 2,
        TrackerEvent::Stopped => 3,
    }
}

impl TrackerEvent {
    /// The event's name in an HTTP announce.
    pub fn http_name(self) -> (name: &'static str)
        ensures
            name == event_http_name(self),
    {
        match self {
            TrackerEvent::Started => "started",
            TrackerEvent::Stopped => "stopped",
        }
    }

    /// The event's code in a UDP announce.
    pub fn udp_value(self) -> (value: u32)
        ensures
            value == event_udp_code(self),
    {
        match self {
            TrackerEvent::Started => 2,
            TrackerEvent::Stopped => 3,
        }
    }
}

/// The transfer counters reported in an announce.
#[derive(Debug, Clone, Copy, PartialEq, Eq, Structural)]
pub struct TrackerCounters {
    pub uploaded: u64,
    pub left: u64,
}

impl TrackerCounters {
    pub fn new(uploaded: u64, left: u64) -> (counters: TrackerCounters)
        ensures
            counters.uploaded == uploaded,
            counters.left == left,
    {
        TrackerCounters { uploaded, left }
    }
}

/// The 32-bit number that four bytes denote, most significant first.
pub open spec fn be_u32(b0: u8, b1: u8, b2: u8, b3: u8) -> u32 {
    (b0 as int * 16777216 + b1 as int * 65536 + b2 as int * 256 + b3 as int) as u32
}

/// Checks the header of a UDP tracker response: its transaction id and action.
pub fn validate_udp_header(response: &[u8], expected_transaction: u32, expected_action: u32) -> (result:
    Result<(), TrackerError>)
    ensures
        response@.len() < 8 ==> result == Err::<(), TrackerError>(TrackerError::UdpResponseTooShort),
        response@.len() >= 8 ==> {
            let action = be_u32(response@[0], response@[1], response@[2], response@[3]);
            let transaction = be_u32(response@[4], response@[5], response@[6], response@[7]);
            result == if transaction != expected_transaction {
                Err::<(), TrackerError>(TrackerError::UdpWrongTransaction)
            } else if action == 3 {
                Err(TrackerError::UdpFailure)
            } else if action != expected_action {
                Err(TrackerError::UdpWrongAction)
            } else {
                Ok(())
            }
        },
{
    if response.len() < 8 {
        return Err(TrackerError::UdpResponseTooShort);
    }
    let action = read_u32(response, 0);
    let transaction = read_u32(response, 4);
    if transaction != expected_transaction {
        return Err(TrackerError::UdpWrongTransaction);
    }
    if action == 3 {
        return Err(TrackerError::UdpFailure);
    }
    if action != expected_action {
        return Err(TrackerError::UdpWrongAction);
    }
    Ok(())
}

/// The big-endian 32-bit number at `at`.
pub fn read_u32(bytes: &[u8], at: usize) -> (value: u32)
    requires
        at + 4 <= bytes@.len(),
    ensures
        value == be_u32(bytes@[at as int], bytes@[at + 1], bytes@[at + 2], bytes@[at + 3]),
{
    bytes[at] as u32 * 16777216 + bytes[at + 1] as u32 * 65536 + bytes[at + 2] as u32 * 256
        + bytes[at + 3] as u32
}

/// The tracker key derived from a peer id: the first four bytes of its
/// SHA-1, most significant first.
pub fn tracker_key(peer_id: &[u8; 20]) -> (key: u32)
    ensures
        sha1_digest(peer_id@).len() == 20,
        key == be_u32(
            sha1_digest(peer_id@)[0],
            sha1_digest(peer_id@)[1],
            sha1_digest(peer_id@)[2],
            sha1_digest(peer_id@)[3],
        ),
{
    let digest = sha1(peer_id.as_slice());
    read_u32(digest.as_slice(), 0)
}


/// One step of the xorshift generator that orders a tier.
pub open spec fn xorshift(s: u64) -> u64 {
    let a = s ^ (s << 13u64);
    let b = a ^ (a >> 7u64);
    b ^ (b << 17u64)
}

/// Fisher-Yates from position `index` down to 1, each step swapping with a
/// position chosen by the next xorshift state.
pub open spec fn shuffle_from<T>(t: Seq<T>, state: u64, index: int) -> Seq<T>
    decreases index,
{
    if index < 1 || index >= t.len() {
        t
    } else {
        let s = xorshift(state);
        let j = (s % ((index + 1) as u64)) as int;
        shuffle_from(t.update(index, t[j]).update(j, t[index]), s, index - 1)
    }
}

/// Bytes of `v` in `width` bytes, most significant first.
pub open spec fn be_bytes(v: nat, width: nat) -> Seq<u8>
    decreases width,
{
    if width == 0 {
        Seq::empty()
    } else {
        be_bytes(v / 256, (width - 1) as nat).push((v % 256) as u8)
    }
}

/// The generator's first state for a tier: the first eight bytes of the
/// SHA-1 of the peer id and the tier's index.
pub open spec fn tier_seed(peer_id: Seq<u8>, tier_index: u64) -> u64 {
    be_value(sha1_digest(peer_id + be_bytes(tier_index as nat, 8)).subrange(0, 8)) as u64
}

/// Appends `v` in `width` bytes, most significant first.
pub fn push_be(out: &mut Vec<u8>, v: u64, width: usize)
    requires
        width <= 8,
    ensures
        final(out)@ == old(out)@ + be_bytes(v as nat, width as nat),
    decreases width,
{
    if width > 0 {
        push_be(out, v / 256, width - 1);
        out.push((v % 256) as u8);
        assert(old(out)@ + be_bytes(v as nat, width as nat) =~= old(out)@ + be_bytes(
            (v / 256) as nat,
            (width - 1) as nat,
        ) + seq![(v % 256) as u8]);
    } else {
        assert(old(out)@ + be_bytes(v as nat, 0) =~= old(out)@);
    }
}

/// The order in which the trackers of a tier are tried: a shuffle that is
/// the same for the same peer id and tier.
pub fn shuffled_tier(tier: Vec<String>, peer_id: &[u8; 20], tier_index: u64) -> (shuffled: Vec<
    String,
>)
    ensures
        sha1_digest(peer_id@ + be_bytes(tier_index as nat, 8)).len() == 20,
        strings_view(shuffled@) == shuffle_from(
            strings_view(tier@),
            tier_seed(peer_id@, tier_index),
            tier@.len() - 1,
        ),
{
    let mut message: Vec<u8> = Vec::new();
    crate::bytes::push_slice(&mut message, peer_id.as_slice());
    push_be(&mut message, tier_index, 8);
    let digest = sha1(message.as_slice());
    let mut state = be_number(digest.as_slice(), 0, 8) as u64;
    let mut tier = tier;
    let n = tier.len();
    if n < 2 {
        return tier;
    }
    let ghost original = strings_view(tier@);
    let mut index = n - 1;
    proof {
        assert(message@ == peer_id@ + be_bytes(tier_index as nat, 8));
        if digest@.len() == 20 {
            lemma_be_value_u64(digest@.subrange(0, 8));
        }
    }
    while index >= 1
        invariant
            n == tier@.len(),
            index < n,
            digest@ == sha1_digest(peer_id@ + be_bytes(tier_index as nat, 8)),
            digest@.len() == 20 ==> shuffle_from(
                original,
                tier_seed(peer_id@, tier_index),
                n - 1,
            ) == shuffle_from(strings_view(tier@), state, index as int),
        decreases index,
    {
        state = state ^ (state << 13u64);
        state = state ^ (state >> 7u64);
        state = state ^ (state << 17u64);
        let j = (state % (index as u64 + 1)) as usize;
        let ghost before = strings_view(tier@);
        let a = tier[index].clone();
        let b = tier[j].clone();
        tier.set(index, b);
        tier.set(j, a);
        assert(strings_view(tier@) =~= before.update(index as int, before[j as int]).update(
            j as int,
            before[index as int],
        ));
        index = index - 1;
    }
    tier
}

proof fn lemma_be_value_u64(s: Seq<u8>)
    requires
        s.len() == 8,
    ensures
        be_value(s) <= u64::MAX,
{
    lemma_be_prefix_bound(s, 8);
    assert(s.subrange(0, 8) =~= s);
    reveal_with_fuel(pow2_8k, 9);
    assert(pow2_8k(8) == 0x1_0000_0000_0000_0000);
}

pub open spec fn pow2_8k(k: int) -> int
    decreases k,
{
    if k <= 0 {
        1
    } else {
        256 * pow2_8k(k - 1)
    }
}

proof fn lemma_be_prefix_bound(s: Seq<u8>, k: int)
    requires
        0 <= k <= s.len(),
    ensures
        be_value(s.subrange(0, k)) < pow2_8k(k),
    decreases k,
{
    if k > 0 {
        lemma_be_prefix_bound(s, k - 1);
        assert(s.subrange(0, k).drop_last() =~= s.subrange(0, k - 1));
        let p = be_value(s.subrange(0, k - 1));
        assert(p * 256 + 255 < 256 * pow2_8k(k - 1)) by (nonlinear_arith)
            requires
                p < pow2_8k(k - 1),
        ;
    }
}

/// The 20-byte info-hash that a torrent's hex info-hash text denotes.
pub fn decode_info_hash(torrent: &TorrentV1) -> (hash: Option<Vec<u8>>)
    ensures
        hash matches Some(h) ==> h@.len() == 20 && hex_decoded(
            vstd::utf8::encode_utf8(torrent.info_hash_sha1@),
        ) == Some(h@),
        hash is None ==> match hex_decoded(vstd::utf8::encode_utf8(torrent.info_hash_sha1@)) {
            Some(h) => h.len() != 20,
            None => true,
        },
{
    match hex_decode(torrent.info_hash_sha1.as_str().as_bytes()) {
        Some(bytes) => if bytes.len() == 20 {
            Some(bytes)
        } else {
            None
        },
        None => None,
    }
}

/// The protocol id that opens every UDP tracker exchange.
pub const UDP_PROTOCOL_ID: u64 = 0x0417_2710_1980;

/// A UDP tracker connect request.
pub fn udp_connect_request(transaction: u32) -> (request: Vec<u8>)
    ensures
        request@ == be_bytes(UDP_PROTOCOL_ID as nat, 8) + be_bytes(0, 4) + be_bytes(
            transaction as nat,
            4,
        ),
{
    let mut request: Vec<u8> = Vec::new();
    push_be(&mut request, UDP_PROTOCOL_ID, 8);
    push_be(&mut request, 0, 4);
    push_be(&mut request, transaction as u64, 4);
    request
}

/// The bytes of a UDP announce (BEP 15): connection id, action, transaction,
/// info-hash, peer id, counters, event, IP, key, peers wanted and port.
pub open spec fn udp_announce_bytes(
    connection_id: u64,
    transaction: u32,
    info_hash: Seq<u8>,
    peer_id: Seq<u8>,
    counters: TrackerCounters,
    event: TrackerEvent,
    key: u32,
    port: u16,
) -> Seq<u8> {
    be_bytes(connection_id as nat, 8) + be_bytes(1, 4) + be_bytes(transaction as nat, 4) + info_hash + peer_id
        + be_bytes(counters.uploaded as nat, 8) + be_bytes(counters.left as nat, 8) + be_bytes(0, 8) + be_bytes(
        event_udp_code(event) as nat,
        4,
    ) + be_bytes(0, 4) + be_bytes(key as nat, 4) + be_bytes(50, 4) + be_bytes(port as nat, 2)
}

/// The four bytes of a small number, most significant first.
proof fn lemma_be_small(v: nat)
    requires
        v < 256,
    ensures
        be_bytes(v, 4) == seq![0u8, 0u8, 0u8, v as u8],
{
    reveal_with_fuel(be_bytes, 5);
    assert(be_bytes(v, 4) =~= seq![0u8, 0u8, 0u8, v as u8]);
}

/// A UDP announce carries the BEP 15 event number at bytes 80 to 84: 2 for a
/// start and 3 for a stop (never 1, completed, nor 0, none), after the
/// announce action (1) at bytes 8 to 12.
pub proof fn law_udp_announce_event_field(
    connection_id: u64,
    transaction: u32,
    info_hash: Seq<u8>,
    peer_id: Seq<u8>,
    counters: TrackerCounters,
    event: TrackerEvent,
    key: u32,
    port: u16,
)
    requires
        info_hash.len() == 20,
        peer_id.len() == 20,
    ensures
        ({
            let r = udp_announce_bytes(connection_id, transaction, info_hash, peer_id, counters, event, key, port);
            &&& r.len() == 98
            &&& r.subrange(8, 12) == seq![0u8, 0u8, 0u8, 1u8]
            &&& r.subrange(80, 84) == match event {
                TrackerEvent::Started => seq![0u8, 0u8, 0u8, 2u8],
                TrackerEvent::Stopped => seq![0u8, 0u8, 0u8, 3u8],
            }
        }),
{
    let code = event_udp_code(event) as nat;
    let e = match event {
        TrackerEvent::Started => 2nat,
        TrackerEvent::Stopped => 3nat,
    };
    assert(code == e);
    lemma_be_small(1);
    lemma_be_small(e);
    lemma_be_small(0);
    lemma_be_small(50);
    reveal_with_fuel(be_bytes, 9);
    let a = be_bytes(connection_id as nat, 8);
    let b = be_bytes(transaction as nat, 4);
    let c = be_bytes(counters.uploaded as nat, 8);
    let d = be_bytes(counters.left as nat, 8);
    let z = be_bytes(0, 8);
    let k = be_bytes(key as nat, 4);
    let pp = be_bytes(port as nat, 2);
    assert(a.len() == 8 && b.len() == 4 && c.len() == 8 && d.len() == 8 && z.len() == 8 && k.len() == 4 && pp.len() == 2);
    let r = udp_announce_bytes(connection_id, transaction, info_hash, peer_id, counters, event, key, port);
    let head = a + seq![0u8, 0u8, 0u8, 1u8] + b + info_hash + peer_id + c + d + z;
    assert(head.len() == 80);
    assert(r =~= head + seq![0u8, 0u8, 0u8, e as u8] + seq![0u8, 0u8, 0u8, 0u8] + k + seq![0u8, 0u8, 0u8, 50u8] + pp);
    assert(r.subrange(8, 12) =~= seq![0u8, 0u8, 0u8, 1u8]);
    assert(r.subrange(80, 84) =~= seq![0u8, 0u8, 0u8, e as u8]);
}

/// A UDP tracker announce request, asking for 50 peers.
pub fn udp_announce_request(
    connection_id: u64,
    transaction: u32,
    info_hash: &[u8],
    peer_id: &[u8; 20],
    counters: TrackerCounters,
    event: TrackerEvent,
    key: u32,
    port: u16,
) -> (request: Vec<u8>)
    ensures
        request@ == udp_announce_bytes(connection_id, transaction, info_hash@, peer_id@, counters, event, key, port),
{
    let mut request: Vec<u8> = Vec::new();
    push_be(&mut request, connection_id, 8);
    push_be(&mut request, 1, 4);
    push_be(&mut request, transaction as u64, 4);
    crate::bytes::push_slice(&mut request, info_hash);
    crate::bytes::push_slice(&mut request, peer_id.as_slice());
    push_be(&mut request, counters.uploaded, 8);
    push_be(&mut request, counters.left, 8);
    push_be(&mut request, 0, 8);
    push_be(&mut request, event.udp_value() as u64, 4);
    push_be(&mut request, 0, 4);
    push_be(&mut request, key as u64, 4);
    push_be(&mut request, 50, 4);
    push_be(&mut request, port as u64, 2);
    request
}

/// Peers above which a tracker's answer is refused.
pub const MAX_TRACKER_PEERS: usize = 100;

/// Why a UDP announce answer was refused.
#[derive(Debug, Clone, Copy, PartialEq, Eq, Structural)]
pub enum UdpAnnounceError {
    TooShort,
    PeerPayloadLength,
    TooManyPeers,
}

/// The interval and peers of a UDP announce answer whose header was checked;
/// the peers are IPv4 when the tracker was reached over IPv4, else IPv6.
pub fn parse_udp_announce_response(response: &[u8], ipv4: bool) -> (parsed: Result<
    (u64, Vec<PeerAddr>),
    UdpAnnounceError,
>)
    ensures
        response@.len() < 20 ==> parsed == Err::<(u64, Vec<PeerAddr>), UdpAnnounceError>(
            UdpAnnounceError::TooShort,
        ),
        response@.len() >= 20 ==> {
            let compact = response@.subrange(20, response@.len() as int);
            let clen = compact.len() as int;
            let stride: int = if ipv4 {
                6
            } else {
                18
            };
            &&& clen % stride != 0 ==> parsed == Err::<
                (u64, Vec<PeerAddr>),
                UdpAnnounceError,
            >(UdpAnnounceError::PeerPayloadLength)
            &&& (clen % stride == 0 && clen / stride > MAX_TRACKER_PEERS)
                ==> parsed == Err::<(u64, Vec<PeerAddr>), UdpAnnounceError>(
                UdpAnnounceError::TooManyPeers,
            )
            &&& parsed matches Ok((interval, peers)) ==> {
                &&& interval == be_u32(response@[8], response@[9], response@[10], response@[11])
                &&& peers@ == if ipv4 {
                    compact_v4(compact, clen / 6)
                } else {
                    compact_v6(compact, clen / 18)
                }
            }
            &&& (clen % stride == 0 && clen / stride <= MAX_TRACKER_PEERS)
                ==> parsed is Ok
        },
{
    if response.len() < 20 {
        return Err(UdpAnnounceError::TooShort);
    }
    let interval = read_u32(response, 8) as u64;
    let compact = &response[20..response.len()];
    let stride: usize = if ipv4 {
        6
    } else {
        18
    };
    if compact.len() % stride != 0 {
        return Err(UdpAnnounceError::PeerPayloadLength);
    }
    if compact.len() / stride > MAX_TRACKER_PEERS {
        return Err(UdpAnnounceError::TooManyPeers);
    }
    let mut peers: Vec<PeerAddr> = Vec::new();
    if ipv4 {
        let r = parse_compact_ipv4_peers(compact, &mut peers);
        assert(r is Ok);
    } else {
        let r = parse_compact_ipv6_peers(compact, &mut peers);
        assert(r is Ok);
    }
    assert(peers@ =~= if ipv4 {
        compact_v4(compact@, compact@.len() as int / 6)
    } else {
        compact_v6(compact@, compact@.len() as int / 18)
    });
    Ok((interval, peers))
}

/// The query of an HTTP announce, appended to the tracker URL.
pub open spec fn http_announce_url(
    tracker: Seq<char>,
    info_hash: Seq<u8>,
    peer_id: Seq<u8>,
    port: u16,
    counters: TrackerCounters,
    key: u32,
    event: TrackerEvent,
) -> Seq<char> {
    let separator = if find_char(tracker, '?') < tracker.len() {
        '&'
    } else {
        '?'
    };
    tracker.push(separator) + "info_hash="@ + ascii_chars(percent_encoded(info_hash))
        + "&peer_id="@ + ascii_chars(percent_encoded(peer_id)) + "&port="@ + ascii_chars(
        decimal_text(port as nat),
    ) + "&uploaded="@ + ascii_chars(decimal_text(counters.uploaded as nat))
        + "&downloaded=0&left="@ + ascii_chars(decimal_text(counters.left as nat))
        + "&compact=1&numwant=50&key="@ + ascii_chars(decimal_text(key as nat)) + "&event="@
        + event_http_name(event)@
}

/// Whether a URL holds `c`.
fn contains_char(url: &str, c: char) -> (found: bool)
    ensures
        found == (find_char(url@, c) < url@.len()),
{
    let n = url.unicode_len();
    let mut i: usize = 0;
    while i < n
        invariant
            n == url@.len(),
            i <= n,
            forall|j: int| 0 <= j < i ==> url@[j] != c,
        decreases n - i,
    {
        if url.get_char(i) == c {
            proof {
                lemma_find_char(url@, c, i as int);
            }
            return true;
        }
        i = i + 1;
    }
    proof {
        lemma_find_char(url@, c, i as int);
    }
    false
}

/// The URL of an HTTP announce; `None` when the tracker URL has a fragment.
pub fn announce_url(
    tracker: &str,
    info_hash: &[u8],
    peer_id: &[u8; 20],
    port: u16,
    counters: TrackerCounters,
    key: u32,
    event: TrackerEvent,
) -> (url: Option<String>)
    ensures
        url is None <==> find_char(tracker@, '#') < tracker@.len(),
        url matches Some(u) ==> u@ == http_announce_url(
            tracker@,
            info_hash@,
            peer_id@,
            port,
            counters,
            key,
            event,
        ),
{
    if contains_char(tracker, '#') {
        return None;
    }
    let mut url = String::from_str(tracker);
    if contains_char(tracker, '?') {
        crate::text::push_char(&mut url, '&');
    } else {
        crate::text::push_char(&mut url, '?');
    }
    url.append("info_hash=");
    url.append(percent_encode_bytes(info_hash).as_str());
    url.append("&peer_id=");
    url.append(percent_encode_bytes(peer_id.as_slice()).as_str());
    url.append("&port=");
    push_decimal(&mut url, port as u64);
    url.append("&uploaded=");
    push_decimal(&mut url, counters.uploaded);
    url.append("&downloaded=0&left=");
    push_decimal(&mut url, counters.left);
    url.append("&compact=1&numwant=50&key=");
    push_decimal(&mut url, key as u64);
    url.append("&event=");
    url.append(event.http_name());
    Some(url)
}


/// The peers a tier's announces offer, in tracker order: every peer of each
/// reply within the peer limit.
pub open spec fn offered_peers(replies: Seq<Option<Seq<PeerAddr>>>) -> Seq<PeerAddr>
    decreases replies.len(),
{
    if replies.len() == 0 {
        Seq::empty()
    } else {
        let earlier = offered_peers(replies.drop_last());
        match replies.last() {
            Some(p) => if p.len() <= MAX_TRACKER_PEERS {
                earlier + p
            } else {
                earlier
            },
            None => earlier,
        }
    }
}

/// The offered peers not tried before, each once, in order.
pub open spec fn fresh_peers(offered: Seq<PeerAddr>, tried: Seq<PeerAddr>) -> Seq<PeerAddr>
    decreases offered.len(),
{
    if offered.len() == 0 {
        Seq::empty()
    } else {
        let earlier = fresh_peers(offered.drop_last(), tried);
        if (tried + earlier).contains(offered.last()) {
            earlier
        } else {
            earlier.push(offered.last())
        }
    }
}

pub open spec fn reply_view(r: Option<Vec<PeerAddr>>) -> Option<Seq<PeerAddr>> {
    match r {
        Some(p) => Some(p@),
        None => None,
    }
}

/// The decisions after a tier's started announces, given each tracker's
/// reply in order (`None` when the announce failed): the candidate peers to
/// try, which are the offered peers not tried before, each once; the tried
/// peers then include them; and the trackers that accepted the started
/// announce, which are the ones that get a stopped announce when the tier is
/// done.
pub fn tier_outcome(replies: &Vec<Option<Vec<PeerAddr>>>, tried: &mut Vec<PeerAddr>) -> (outcome: (
    Vec<PeerAddr>,
    Vec<bool>,
))
    ensures
        outcome.1@.len() == replies@.len(),
        forall|k: int| 0 <= k < replies@.len() ==> #[trigger] outcome.1@[k] == (replies@[k] is Some),
        outcome.0@ == fresh_peers(offered_peers(replies@.map_values(|r: Option<Vec<PeerAddr>>| reply_view(r))), old(tried)@),
        final(tried)@ == old(tried)@ + outcome.0@,
{
    let ghost views = replies@.map_values(|r: Option<Vec<PeerAddr>>| reply_view(r));
    let ghost tried0 = tried@;
    let mut candidates: Vec<PeerAddr> = Vec::new();
    let mut accepted: Vec<bool> = Vec::new();
    let mut k: usize = 0;
    while k < replies.len()
        invariant
            k <= replies@.len(),
            views == replies@.map_values(|r: Option<Vec<PeerAddr>>| reply_view(r)),
            accepted@.len() == k,
            forall|j: int| 0 <= j < k ==> #[trigger] accepted@[j] == (replies@[j] is Some),
            candidates@ == fresh_peers(offered_peers(views.subrange(0, k as int)), tried0),
            tried@ == tried0 + candidates@,
        decreases replies@.len() - k,
    {
        proof {
            assert(views.subrange(0, k as int + 1).drop_last() =~= views.subrange(0, k as int));
        }
        match &replies[k] {
            Some(peers) => {
                accepted.push(true);
                if peers.len() <= MAX_TRACKER_PEERS {
                    let ghost base = offered_peers(views.subrange(0, k as int));
                    let mut i: usize = 0;
                    assert(base + peers@.subrange(0, 0) =~= base);
                    while i < peers.len()
                        invariant
                            i <= peers@.len(),
                            candidates@ == fresh_peers(base + peers@.subrange(0, i as int), tried0),
                            tried@ == tried0 + candidates@,
                        decreases peers@.len() - i,
                    {
                        let peer = peers[i];
                        let ghost offered = base + peers@.subrange(0, i as int + 1);
                        proof {
                            assert(offered.drop_last() =~= base + peers@.subrange(0, i as int));
                            assert(offered.last() == peer);
                        }
                        let mut seen = false;
                        let mut t: usize = 0;
                        while t < tried.len()
                            invariant
                                t <= tried@.len(),
                                seen == exists|x: int| 0 <= x < t && tried@[x] == peer,
                            decreases tried@.len() - t,
                        {
                            if tried[t] == peer {
                                seen = true;
                            }
                            t = t + 1;
                        }
                        proof {
                            if seen {
                                let x = choose|x: int| 0 <= x < tried@.len() && tried@[x] == peer;
                                assert(tried@.contains(peer));
                            } else {
                                assert(!tried@.contains(peer));
                            }
                        }
                        if !seen {
                            candidates.push(peer);
                            tried.push(peer);
                        }
                        i = i + 1;
                    }
                    assert(peers@.subrange(0, peers@.len() as int) =~= peers@);
                } else {
                }
            },
            None => {
                accepted.push(false);
            },
        }
        k = k + 1;
    }
    assert(views.subrange(0, replies@.len() as int) =~= views);
    (candidates, accepted)
}

/// Where a walk through the tracker tiers stands.
#[derive(Debug, Clone, Copy, PartialEq, Eq, Structural)]
pub enum WalkStage {
    /// Announcing `started` to the current tier's trackers, one by one.
    Announcing,
    /// Trying the peers the tier offered.
    Fetching,
    /// Announcing `stopped` to the trackers that accepted `started`.
    Stopping,
    /// Done.
    Finished,
}

/// A walk through the tracker tiers, in tier order, each tier's trackers in
/// their shuffled order.
pub struct TrackerWalk {
    /// The tier being worked on.
    pub tier: usize,
    pub stage: WalkStage,
    /// The replies of the current tier's trackers so far (`None` when the
    /// announce failed).
    pub replies: Vec<Option<Vec<PeerAddr>>>,
    /// Which of the current tier's trackers accepted `started`.
    pub accepted: Vec<bool>,
    /// Every peer tried so far, over all tiers.
    pub tried: Vec<PeerAddr>,
    /// Whether a peer of the current tier delivered the target.
    pub delivered: bool,
}

/// What the caller reports back after doing an action.
pub enum WalkEvent {
    /// The reply to the announce just made.
    Replied(Option<Vec<PeerAddr>>),
    /// Whether one of the offered peers delivered the target.
    Fetched(bool),
    /// The stopped announces were sent.
    Stopped,
}

/// What the caller does next.
pub enum WalkAction {
    /// Announce `started` to the tracker at `position` in tier `tier`'s
    /// shuffled order.
    Announce { tier: usize, position: usize },
    /// Try these peers in order until one delivers.
    Fetch(Vec<PeerAddr>),
    /// Announce `stopped` to the trackers of tier `tier` whose flag is set.
    Stop { tier: usize, trackers: Vec<bool> },
    /// The walk is over; whether a peer delivered.
    Finish(bool),
}

pub open spec fn replies_view(r: Seq<Option<Vec<PeerAddr>>>) -> Seq<Option<Seq<PeerAddr>>> {
    r.map_values(|x: Option<Vec<PeerAddr>>| reply_view(x))
}

/// The walk is in a state that a step can take: its tier exists, and while
/// announcing, a tracker of the tier is still to be asked.
pub open spec fn walk_ready(walk: TrackerWalk, sizes: Seq<usize>) -> bool {
    &&& walk.tier < sizes.len()
    &&& walk.stage == WalkStage::Announcing ==> walk.replies@.len() < sizes[walk.tier as int]
}

/// The event that the walk's stage waits for.
pub open spec fn event_fits(stage: WalkStage, event: WalkEvent) -> bool {
    match event {
        WalkEvent::Replied(_) => stage == WalkStage::Announcing,
        WalkEvent::Fetched(_) => stage == WalkStage::Fetching,
        WalkEvent::Stopped => stage == WalkStage::Stopping,
    }
}

/// The state after a tier's last reply (or on entering a tier without
/// trackers): the peers to try are the offered ones not tried before.
pub open spec fn tier_done(
    walk: TrackerWalk,
    tier: usize,
    replies: Seq<Option<Seq<PeerAddr>>>,
    tried: Seq<PeerAddr>,
    action: WalkAction,
) -> bool {
    let fresh = fresh_peers(offered_peers(replies), tried);
    &&& walk.tier == tier
    &&& walk.stage == WalkStage::Fetching
    &&& replies_view(walk.replies@) == replies
    &&& walk.accepted@ == replies.map_values(|r: Option<Seq<PeerAddr>>| r is Some)
    &&& walk.tried@ == tried + fresh
    &&& action matches WalkAction::Fetch(peers) && peers@ == fresh
}

/// The state on entering tier `tier`: its first tracker is asked, or, for a
/// tier without trackers, its (empty) offer is tried at once.
pub open spec fn entered(
    walk: TrackerWalk,
    tier: usize,
    sizes: Seq<usize>,
    tried: Seq<PeerAddr>,
    action: WalkAction,
) -> bool {
    if sizes[tier as int] > 0 {
        &&& walk.tier == tier
        &&& walk.stage == WalkStage::Announcing
        &&& walk.replies@.len() == 0
        &&& walk.tried@ == tried
        &&& action == (WalkAction::Announce { tier, position: 0 })
    } else {
        tier_done(walk, tier, Seq::empty(), tried, action)
    }
}

fn enter_tier(tier: usize, sizes: &Vec<usize>, tried: Vec<PeerAddr>) -> (next: (TrackerWalk, WalkAction))
    requires
        tier < sizes@.len(),
    ensures
        entered(next.0, tier, sizes@, tried@, next.1),
        walk_ready(next.0, sizes@),
        !next.0.delivered,
{
    let walk = TrackerWalk {
        tier,
        stage: WalkStage::Announcing,
        replies: Vec::new(),
        accepted: Vec::new(),
        tried,
        delivered: false,
    };
    if sizes[tier] > 0 {
        (walk, WalkAction::Announce { tier, position: 0 })
    } else {
        let mut walk = walk;
        let ghost tried0 = walk.tried@;
        let (fresh, accepted) = tier_outcome(&walk.replies, &mut walk.tried);
        proof {
            assert(replies_view(walk.replies@) =~= Seq::<Option<Seq<PeerAddr>>>::empty());
            assert(accepted@ =~= Seq::<Option<Seq<PeerAddr>>>::empty().map_values(
                |r: Option<Seq<PeerAddr>>| r is Some,
            ));
        }
        walk.accepted = accepted;
        walk.stage = WalkStage::Fetching;
        (walk, WalkAction::Fetch(fresh))
    }
}

fn copy_flags(flags: &Vec<bool>) -> (copy: Vec<bool>)
    ensures
        copy@ == flags@,
{
    let mut copy: Vec<bool> = Vec::new();
    let mut i: usize = 0;
    while i < flags.len()
        invariant
            i <= flags@.len(),
            copy@ == flags@.subrange(0, i as int),
        decreases flags@.len() - i,
    {
        copy.push(flags[i]);
        i = i + 1;
    }
    copy
}

impl TrackerWalk {
    /// The walk's start, given the number of trackers in each tier: the first
    /// tier is entered.
    pub fn new(sizes: &Vec<usize>) -> (start: (TrackerWalk, WalkAction))
        requires
            sizes@.len() > 0,
        ensures
            entered(start.0, 0, sizes@, Seq::empty(), start.1),
            walk_ready(start.0, sizes@),
            !start.0.delivered,
    {
        enter_tier(0, sizes, Vec::new())
    }
}

/// One step of the tracker walk: the caller reports what came of the last
/// action and gets the next one. Trackers are asked in tier order and, within
/// a tier, in order; after a tier's last reply its fresh peers are tried;
/// then every tracker that accepted `started` gets `stopped`; then the walk
/// ends if a peer delivered or no tier is left, else the next tier is entered.
pub fn tracker_step(walk: &mut TrackerWalk, sizes: &Vec<usize>, event: WalkEvent) -> (action: WalkAction)
    requires
        walk_ready(*old(walk), sizes@),
        event_fits(old(walk).stage, event),
    ensures
        final(walk).stage != WalkStage::Finished ==> walk_ready(*final(walk), sizes@),
        match event {
            WalkEvent::Replied(r) => {
                let replies = replies_view(old(walk).replies@).push(reply_view(r));
                if replies.len() < sizes@[old(walk).tier as int] {
                    &&& final(walk).tier == old(walk).tier
                    &&& final(walk).stage == WalkStage::Announcing
                    &&& replies_view(final(walk).replies@) == replies
                    &&& final(walk).tried@ == old(walk).tried@
                    &&& action == (WalkAction::Announce { tier: old(walk).tier, position: replies.len() as usize })
                } else {
                    tier_done(*final(walk), old(walk).tier, replies, old(walk).tried@, action)
                }
            },
            WalkEvent::Fetched(ok) => {
                &&& final(walk).tier == old(walk).tier
                &&& final(walk).stage == WalkStage::Stopping
                &&& final(walk).delivered == ok
                &&& final(walk).tried@ == old(walk).tried@
                &&& action matches WalkAction::Stop { tier, trackers }
                    && tier == old(walk).tier && trackers@ == old(walk).accepted@
            },
            WalkEvent::Stopped => if old(walk).delivered {
                &&& final(walk).stage == WalkStage::Finished
                &&& action == WalkAction::Finish(true)
            } else if old(walk).tier + 1 < sizes@.len() {
                &&& entered(*final(walk), (old(walk).tier + 1) as usize, sizes@, old(walk).tried@, action)
                &&& !final(walk).delivered
            } else {
                &&& final(walk).stage == WalkStage::Finished
                &&& action == WalkAction::Finish(false)
            },
        },
{
    match event {
        WalkEvent::Replied(r) => {
            let ghost before = replies_view(walk.replies@);
            walk.replies.push(r);
            proof {
                assert(replies_view(walk.replies@) =~= before.push(reply_view(r)));
            }
            if walk.replies.len() < sizes[walk.tier] {
                WalkAction::Announce { tier: walk.tier, position: walk.replies.len() }
            } else {
                let (fresh, accepted) = tier_outcome(&walk.replies, &mut walk.tried);
                proof {
                    let rv = replies_view(walk.replies@);
                    assert(accepted@ =~= rv.map_values(|x: Option<Seq<PeerAddr>>| x is Some)) by {
                        assert forall|k: int| 0 <= k < rv.len() implies #[trigger] accepted@[k]
                            == (rv[k] is Some) by {
                            assert(rv[k] == reply_view(walk.replies@[k]));
                        }
                    }
                }
                walk.accepted = accepted;
                walk.stage = WalkStage::Fetching;
                WalkAction::Fetch(fresh)
            }
        },
        WalkEvent::Fetched(ok) => {
            walk.delivered = ok;
            walk.stage = WalkStage::Stopping;
            WalkAction::Stop { tier: walk.tier, trackers: copy_flags(&walk.accepted) }
        },
        WalkEvent::Stopped => {
            if walk.delivered {
                walk.stage = WalkStage::Finished;
                WalkAction::Finish(true)
            } else if walk.tier < sizes.len() - 1 {
                let mut tried: Vec<PeerAddr> = Vec::new();
                std::mem::swap(&mut tried, &mut walk.tried);
                let (next, action) = enter_tier(walk.tier + 1, sizes, tried);
                *walk = next;
                action
            } else {
                walk.stage = WalkStage::Finished;
                WalkAction::Finish(false)
            }
        },
    }
}

/// An HTTP announce names its event last: the query ends with
/// `&event=started` for a start and with `&event=stopped` for a stop.
pub proof fn law_http_announce_event_last(
    tracker: Seq<char>,
    info_hash: Seq<u8>,
    peer_id: Seq<u8>,
    port: u16,
    counters: TrackerCounters,
    key: u32,
    event: TrackerEvent,
)
    ensures
        ({
            let url = http_announce_url(tracker, info_hash, peer_id, port, counters, key, event);
            &&& url.len() >= 14
            &&& url.subrange(url.len() - 14, url.len() as int) == match event {
                TrackerEvent::Started => "&event=started"@,
                TrackerEvent::Stopped => "&event=stopped"@,
            }
        }),
{
    reveal_strlit("&event=");
    reveal_strlit("started");
    reveal_strlit("stopped");
    reveal_strlit("&event=started");
    reveal_strlit("&event=stopped");
    let url = http_announce_url(tracker, info_hash, peer_id, port, counters, key, event);
    let name = event_http_name(event)@;
    let head = url.subrange(0, url.len() - 14);
    assert(name.len() == 7);
    let tail = "&event="@ + name;
    assert(url =~= head + tail);
    assert(url.subrange(url.len() - 14, url.len() as int) =~= tail);
    match event {
        TrackerEvent::Started => {
            assert(tail =~= "&event=started"@);
        },
        TrackerEvent::Stopped => {
            assert(tail =~= "&event=stopped"@);
        },
    }
}
} // verus!
