//! BitTorrent v1 metadata and tracker responses, read from bencode.

use vstd::prelude::*;
use vstd::string::StringSliceAdditionalSpecFns;
use vstd::utf8::{decode_utf8, valid_utf8};

use crate::bencode::{
    dict_model, list_model, node_model, parse_node, BNode, BValue, BencodeError, Node, Parser,
    Value,
};
use crate::bytes::bytes_equal;
use crate::codec::{hex_encode, hex_lower, sha1, sha1_digest, utf8_str};
use crate::text::ascii_chars;

verus! {

/// The part of metadata that an error is about.
#[derive(Debug, Clone, Copy, PartialEq, Eq, Structural)]
pub enum MetadataField {
    Root,
    Info,
    Name,
    Length,
    PieceLength,
    Pieces,
    Announce,
    AnnounceList,
    AnnounceTier,
    AnnounceUrl,
    TrackerResponse,
    FailureReason,
    Interval,
    WarningMessage,
    Peers,
    Peers6,
    Peer,
    PeerIp,
    PeerPort,
}

/// What is wrong with a field.
#[derive(Debug, Clone, Copy, PartialEq, Eq, Structural)]
pub enum Problem {
    Missing,
    NotDictionary,
    NotList,
    NotBytes,
    NotUtf8,
    NotInteger,
    Negative,
    /// Tracker peers that are neither a compact byte string nor a list.
    NotPeerList,
}

/// Why metadata or a tracker response was refused; `T` is the text of a
/// tracker's failure reason.
#[derive(Debug, Clone, PartialEq, Eq)]
pub enum MetadataError<T> {
    Bencode(BencodeError),
    TrailingBytes,
    Field(MetadataField, Problem),
    MultiFile,
    HybridMetadata,
    ZeroPieceLength,
    PieceLengthTooLarge,
    PiecesLength,
    PieceCountMismatch,
    TooManyTiers,
    TooManyTrackers,
    EmptyTrackerUrl,
    TrackerFailure(T),
    CompactPeersLength,
    CompactPeers6Length,
    InvalidPeerIp,
    PeerPortRange,
}

/// The error as mathematics: the failure reason taken by its characters.
pub open spec fn error_view(e: MetadataError<String>) -> MetadataError<Seq<char>> {
    match e {
        MetadataError::Bencode(b) => MetadataError::Bencode(b),
        MetadataError::TrailingBytes => MetadataError::TrailingBytes,
        MetadataError::Field(f, p) => MetadataError::Field(f, p),
        MetadataError::MultiFile => MetadataError::MultiFile,
        MetadataError::HybridMetadata => MetadataError::HybridMetadata,
        MetadataError::ZeroPieceLength => MetadataError::ZeroPieceLength,
        MetadataError::PieceLengthTooLarge => MetadataError::PieceLengthTooLarge,
        MetadataError::PiecesLength => MetadataError::PiecesLength,
        MetadataError::PieceCountMismatch => MetadataError::PieceCountMismatch,
        MetadataError::TooManyTiers => MetadataError::TooManyTiers,
        MetadataError::TooManyTrackers => MetadataError::TooManyTrackers,
        MetadataError::EmptyTrackerUrl => MetadataError::EmptyTrackerUrl,
        MetadataError::TrackerFailure(t) => MetadataError::TrackerFailure(t@),
        MetadataError::CompactPeersLength => MetadataError::CompactPeersLength,
        MetadataError::CompactPeers6Length => MetadataError::CompactPeers6Length,
        MetadataError::InvalidPeerIp => MetadataError::InvalidPeerIp,
        MetadataError::PeerPortRange => MetadataError::PeerPortRange,
    }
}

pub type SpecError = MetadataError<Seq<char>>;

/// The first value stored under `key`, if any.
pub open spec fn dict_lookup(entries: Seq<(Seq<u8>, BNode)>, key: Seq<u8>) -> Option<BNode>
    decreases entries.len(),
{
    if entries.len() == 0 {
        None
    } else if entries[0].0 == key {
        Some(entries[0].1)
    } else {
        dict_lookup(entries.drop_first(), key)
    }
}

/// The text of a byte-string node that holds UTF-8.
pub open spec fn text_of(n: BNode) -> Result<Seq<char>, Problem> {
    match n.value {
        BValue::Bytes(b) => if valid_utf8(b) {
            Ok(decode_utf8(b))
        } else {
            Err(Problem::NotUtf8)
        },
        _ => Err(Problem::NotBytes),
    }
}

/// The value of a non-negative integer node.
pub open spec fn unsigned_of(n: BNode) -> Result<u64, Problem> {
    match n.value {
        BValue::Integer(v) => if v < 0 {
            Err(Problem::Negative)
        } else {
            Ok(v as u64)
        },
        _ => Err(Problem::NotInteger),
    }
}

/// The text stored under `key`, which must be present.
pub open spec fn required_text(
    entries: Seq<(Seq<u8>, BNode)>,
    key: Seq<u8>,
    field: MetadataField,
) -> Result<Seq<char>, SpecError> {
    match dict_lookup(entries, key) {
        None => Err(MetadataError::Field(field, Problem::Missing)),
        Some(n) => match text_of(n) {
            Ok(t) => Ok(t),
            Err(p) => Err(MetadataError::Field(field, p)),
        },
    }
}

/// The text stored under `key`, if present.
pub open spec fn optional_text(
    entries: Seq<(Seq<u8>, BNode)>,
    key: Seq<u8>,
    field: MetadataField,
) -> Result<Option<Seq<char>>, SpecError> {
    match dict_lookup(entries, key) {
        None => Ok(None),
        Some(n) => match text_of(n) {
            Ok(t) => Ok(Some(t)),
            Err(p) => Err(MetadataError::Field(field, p)),
        },
    }
}

/// The non-negative integer stored under `key`, which must be present.
pub open spec fn required_unsigned(
    entries: Seq<(Seq<u8>, BNode)>,
    key: Seq<u8>,
    field: MetadataField,
) -> Result<u64, SpecError> {
    match dict_lookup(entries, key) {
        None => Err(MetadataError::Field(field, Problem::Missing)),
        Some(n) => match unsigned_of(n) {
            Ok(v) => Ok(v),
            Err(p) => Err(MetadataError::Field(field, p)),
        },
    }
}

proof fn lemma_dict_model_entry<'a>(v: Seq<(&'a [u8], Node<'a>)>, i: int, j: int)
    requires
        0 <= j < i <= v.len(),
    ensures
        dict_model(v, i).len() == i,
        dict_model(v, i)[j] == (v[j].0@, node_model(v[j].1)),
    decreases i,
{
    if j < i - 1 {
        lemma_dict_model_entry(v, i - 1, j);
    }
    lemma_dict_model_len(v, i - 1);
}

proof fn lemma_dict_model_len<'a>(v: Seq<(&'a [u8], Node<'a>)>, i: int)
    requires
        0 <= i <= v.len(),
    ensures
        dict_model(v, i).len() == i,
    decreases i,
{
    if i > 0 {
        lemma_dict_model_len(v, i - 1);
    }
}

proof fn lemma_list_model_entry<'a>(v: Seq<Node<'a>>, i: int, j: int)
    requires
        0 <= j < i <= v.len(),
    ensures
        list_model(v, i).len() == i,
        list_model(v, i)[j] == node_model(v[j]),
    decreases i,
{
    if j < i - 1 {
        lemma_list_model_entry(v, i - 1, j);
    }
    lemma_list_model_len(v, i - 1);
}

proof fn lemma_list_model_len<'a>(v: Seq<Node<'a>>, i: int)
    requires
        0 <= i <= v.len(),
    ensures
        list_model(v, i).len() == i,
    decreases i,
{
    if i > 0 {
        lemma_list_model_len(v, i - 1);
    }
}

/// Lookup from position `i` on gives the same as from the start when no
/// earlier key matches.
proof fn lemma_dict_lookup_skip(entries: Seq<(Seq<u8>, BNode)>, key: Seq<u8>, i: int)
    requires
        0 <= i <= entries.len(),
        forall|j: int| 0 <= j < i ==> entries[j].0 != key,
    ensures
        dict_lookup(entries, key) == dict_lookup(entries.subrange(i, entries.len() as int), key),
    decreases i,
{
    if i > 0 {
        let rest = entries.drop_first();
        assert forall|j: int| 0 <= j < i - 1 implies rest[j].0 != key by {
            assert(rest[j] == entries[j + 1]);
        }
        lemma_dict_lookup_skip(rest, key, i - 1);
        assert(rest.subrange(i - 1, rest.len() as int) =~= entries.subrange(
            i,
            entries.len() as int,
        ));
    } else {
        assert(entries.subrange(0, entries.len() as int) =~= entries);
    }
}

/// What a lookup finds is one of the entries.
proof fn lemma_dict_lookup_member(entries: Seq<(Seq<u8>, BNode)>, key: Seq<u8>)
    requires
        dict_lookup(entries, key) is Some,
    ensures
        exists|k: int| 0 <= k < entries.len() && entries[k].1 == dict_lookup(entries, key)->Some_0,
    decreases entries.len(),
{
    if entries[0].0 == key {
        assert(entries[0].1 == dict_lookup(entries, key)->Some_0);
    } else {
        let rest = entries.drop_first();
        lemma_dict_lookup_member(rest, key);
        let k = choose|k: int| 0 <= k < rest.len() && rest[k].1 == dict_lookup(rest, key)->Some_0;
        assert(entries[k + 1] == rest[k]);
    }
}

/// The value stored under `key` in parsed dictionary entries.
pub fn dictionary_value<'a, 'b>(entries: &'b Vec<(&'a [u8], Node<'a>)>, key: &[u8]) -> (found:
    Option<&'b Node<'a>>)
    ensures
        found matches Some(n) ==> dict_lookup(
            dict_model(entries@, entries@.len() as int),
            key@,
        ) == Some(node_model(*n)),
        found is None ==> dict_lookup(dict_model(entries@, entries@.len() as int), key@) is None,
{
    let ghost m = dict_model(entries@, entries@.len() as int);
    proof {
        lemma_dict_model_len(entries@, entries@.len() as int);
    }
    let mut i: usize = 0;
    while i < entries.len()
        invariant
            i <= entries@.len(),
            m == dict_model(entries@, entries@.len() as int),
            m.len() == entries@.len(),
            forall|j: int| 0 <= j < i ==> m[j].0 != key@,
        decreases entries@.len() - i,
    {
        proof {
            lemma_dict_model_entry(entries@, entries@.len() as int, i as int);
        }
        if bytes_equal(entries[i].0, key) {
            proof {
                lemma_dict_lookup_skip(m, key@, i as int);
                assert(m.subrange(i as int, m.len() as int)[0] == m[i as int]);
            }
            return Some(&entries[i].1);
        }
        i = i + 1;
    }
    proof {
        lemma_dict_lookup_skip(m, key@, i as int);
    }
    None
}

/// The text of a byte-string node that holds UTF-8.
pub fn node_text<'a>(node: &Node<'a>) -> (text: Result<String, Problem>)
    ensures
        text matches Ok(t) ==> text_of(node_model(*node)) == Ok::<Seq<char>, Problem>(t@),
        text matches Err(p) ==> text_of(node_model(*node)) == Err::<Seq<char>, Problem>(p),
{
    match &node.value {
        Value::Bytes(bytes) => match utf8_str(bytes) {
            Some(s) => Ok(s.to_owned()),
            None => Err(Problem::NotUtf8),
        },
        _ => Err(Problem::NotBytes),
    }
}

/// The value of a non-negative integer node.
pub fn node_unsigned<'a>(node: &Node<'a>) -> (value: Result<u64, Problem>)
    ensures
        value == unsigned_of(node_model(*node)),
{
    match &node.value {
        Value::Integer(v) => if *v < 0 {
            Err(Problem::Negative)
        } else {
            Ok(*v as u64)
        },
        _ => Err(Problem::NotInteger),
    }
}


/// Piece length above which metadata is refused (16 MiB).
pub const MAX_BT_PIECE_LENGTH: u64 = 16_777_216;

/// Tiers above which an announce list is refused.
pub const MAX_TRACKER_TIERS: usize = 32;

/// Trackers per tier above which an announce list is refused.
pub const MAX_TRACKERS_PER_TIER: usize = 32;

/// Single-file BitTorrent v1 metadata.
#[derive(Debug, Clone, PartialEq, Eq)]
pub struct TorrentV1 {
    pub name: String,
    pub total_length: u64,
    pub piece_length: u64,
    /// Lower-case hex SHA-1 of each piece.
    pub piece_sha1: Vec<String>,
    /// Lower-case hex SHA-1 of the bencoded info dictionary.
    pub info_hash_sha1: String,
    pub announce: Option<String>,
    pub announce_list: Option<Vec<Vec<String>>>,
}

/// Torrent metadata as mathematics.
pub struct TorrentModel {
    pub name: Seq<char>,
    pub total_length: u64,
    pub piece_length: u64,
    pub piece_sha1: Seq<Seq<char>>,
    pub info_hash_sha1: Seq<char>,
    pub announce: Option<Seq<char>>,
    pub announce_list: Option<Seq<Seq<Seq<char>>>>,
}

pub open spec fn strings_view(v: Seq<String>) -> Seq<Seq<char>> {
    v.map_values(|s: String| s@)
}

pub open spec fn tiers_view(v: Seq<Vec<String>>) -> Seq<Seq<Seq<char>>> {
    v.map_values(|t: Vec<String>| strings_view(t@))
}

impl View for TorrentV1 {
    type V = TorrentModel;

    open spec fn view(&self) -> TorrentModel {
        TorrentModel {
            name: self.name@,
            total_length: self.total_length,
            piece_length: self.piece_length,
            piece_sha1: strings_view(self.piece_sha1@),
            info_hash_sha1: self.info_hash_sha1@,
            announce: match self.announce {
                Some(a) => Some(a@),
                None => None,
            },
            announce_list: match self.announce_list {
                Some(l) => Some(tiers_view(l@)),
                None => None,
            },
        }
    }
}

/// Pieces that `total` bytes need at `piece_length` bytes per piece.
pub open spec fn expected_piece_count(total: u64, piece_length: u64) -> int {
    if total == 0 {
        0
    } else {
        (total + piece_length - 1) / (piece_length as int)
    }
}

/// Lower-case hex SHA-1 of each 20-byte piece digest.
pub open spec fn piece_digests(pieces: Seq<u8>) -> Seq<Seq<char>> {
    Seq::new(
        pieces.len() / 20,
        |i: int| ascii_chars(hex_lower(pieces.subrange(20 * i, 20 * i + 20))),
    )
}

/// The tracker URLs of a tier, each kept once, in order; `seen` holds the
/// URLs read before.
pub open spec fn tier_urls(trackers: Seq<BNode>, seen: Seq<Seq<char>>) -> Result<
    Seq<Seq<char>>,
    SpecError,
>
    decreases trackers.len(),
{
    if trackers.len() == 0 {
        Ok(Seq::empty())
    } else {
        match text_of(trackers[0]) {
            Err(p) => Err(MetadataError::Field(MetadataField::AnnounceUrl, p)),
            Ok(url) => if url.len() == 0 {
                Err(MetadataError::EmptyTrackerUrl)
            } else if seen.contains(url) {
                tier_urls(trackers.drop_first(), seen)
            } else {
                match tier_urls(trackers.drop_first(), seen.push(url)) {
                    Ok(rest) => Ok(seq![url] + rest),
                    Err(e) => Err(e),
                }
            },
        }
    }
}

/// The tiers of an announce list; empty tiers are dropped.
pub open spec fn announce_tiers(tiers: Seq<BNode>) -> Result<Seq<Seq<Seq<char>>>, SpecError>
    decreases tiers.len(),
{
    if tiers.len() == 0 {
        Ok(Seq::empty())
    } else {
        let urls = match tiers[0].value {
            BValue::List(trackers) => if trackers.len() > MAX_TRACKERS_PER_TIER {
                Err(MetadataError::TooManyTrackers)
            } else {
                tier_urls(trackers, Seq::empty())
            },
            _ => Err(MetadataError::Field(MetadataField::AnnounceTier, Problem::NotList)),
        };
        match urls {
            Err(e) => Err(e),
            Ok(urls) => match announce_tiers(tiers.drop_first()) {
                Err(e) => Err(e),
                Ok(rest) => if urls.len() == 0 {
                    Ok(rest)
                } else {
                    Ok(seq![urls] + rest)
                },
            },
        }
    }
}

/// The announce list a node holds.
pub open spec fn announce_list_of(node: BNode) -> Result<Seq<Seq<Seq<char>>>, SpecError> {
    match node.value {
        BValue::List(tiers) => if tiers.len() > MAX_TRACKER_TIERS {
            Err(MetadataError::TooManyTiers)
        } else {
            announce_tiers(tiers)
        },
        _ => Err(MetadataError::Field(MetadataField::AnnounceList, Problem::NotList)),
    }
}

/// The torrent read from the info dictionary `info` (with entries `id`) and
/// the root dictionary entries `rd` of the document `b`.
pub open spec fn torrent_from_info(
    b: Seq<u8>,
    rd: Seq<(Seq<u8>, BNode)>,
    info: BNode,
    id: Seq<(Seq<u8>, BNode)>,
) -> Result<TorrentModel, SpecError> {
    if dict_lookup(id, "files".spec_bytes()) is Some {
        Err(MetadataError::MultiFile)
    } else if dict_lookup(id, "meta version".spec_bytes()) is Some {
        Err(MetadataError::HybridMetadata)
    } else {
        match required_text(id, "name".spec_bytes(), MetadataField::Name) {
            Err(e) => Err(e),
            Ok(name) => match required_unsigned(id, "length".spec_bytes(), MetadataField::Length) {
                Err(e) => Err(e),
                Ok(total) => match required_unsigned(
                    id,
                    "piece length".spec_bytes(),
                    MetadataField::PieceLength,
                ) {
                    Err(e) => Err(e),
                    Ok(piece_length) => if piece_length == 0 {
                        Err(MetadataError::ZeroPieceLength)
                    } else if piece_length > MAX_BT_PIECE_LENGTH {
                        Err(MetadataError::PieceLengthTooLarge)
                    } else {
                        match dict_lookup(id, "pieces".spec_bytes()) {
                            None => Err(MetadataError::Field(MetadataField::Pieces, Problem::Missing)),
                            Some(pn) => match pn.value {
                                BValue::Bytes(pieces) => if pieces.len() % 20 != 0 {
                                    Err(MetadataError::PiecesLength)
                                } else if pieces.len() / 20 != expected_piece_count(
                                    total,
                                    piece_length,
                                ) {
                                    Err(MetadataError::PieceCountMismatch)
                                } else {
                                    match optional_text(
                                        rd,
                                        "announce".spec_bytes(),
                                        MetadataField::Announce,
                                    ) {
                                        Err(e) => Err(e),
                                        Ok(announce) => {
                                            let list = match dict_lookup(
                                                rd,
                                                "announce-list".spec_bytes(),
                                            ) {
                                                None => Ok(None),
                                                Some(n) => match announce_list_of(n) {
                                                    Ok(l) => Ok(Some(l)),
                                                    Err(e) => Err(e),
                                                },
                                            };
                                            match list {
                                                Err(e) => Err(e),
                                                Ok(announce_list) => Ok(
                                                    TorrentModel {
                                                        name,
                                                        total_length: total,
                                                        piece_length,
                                                        piece_sha1: piece_digests(pieces),
                                                        info_hash_sha1: ascii_chars(
                                                            hex_lower(
                                                                sha1_digest(
                                                                    b.subrange(info.start, info.end),
                                                                ),
                                                            ),
                                                        ),
                                                        announce,
                                                        announce_list,
                                                    },
                                                ),
                                            }
                                        },
                                    }
                                },
                                _ => Err(MetadataError::Field(MetadataField::Pieces, Problem::NotBytes)),
                            },
                        }
                    },
                },
            },
        }
    }
}

/// The single-file v1 torrent that bencoded bytes describe.
pub open spec fn torrent_from(b: Seq<u8>) -> Result<TorrentModel, SpecError> {
    match parse_node(b, 0, 0) {
        Err(e) => Err(MetadataError::Bencode(e)),
        Ok(root) => if root.end != b.len() {
            Err(MetadataError::TrailingBytes)
        } else {
            match root.value {
                BValue::Dictionary(rd) => match dict_lookup(rd, "info".spec_bytes()) {
                    None => Err(MetadataError::Field(MetadataField::Info, Problem::Missing)),
                    Some(info) => match info.value {
                        BValue::Dictionary(id) => torrent_from_info(b, rd, info, id),
                        _ => Err(MetadataError::Field(MetadataField::Info, Problem::NotDictionary)),
                    },
                },
                _ => Err(MetadataError::Field(MetadataField::Root, Problem::NotDictionary)),
            }
        },
    }
}

/// Whether `url` is among `urls`.
fn contains_string(urls: &Vec<String>, url: &String) -> (found: bool)
    ensures
        found == strings_view(urls@).contains(url@),
{
    let mut i: usize = 0;
    while i < urls.len()
        invariant
            i <= urls@.len(),
            forall|j: int| 0 <= j < i ==> urls@[j]@ != url@,
        decreases urls@.len() - i,
    {
        if urls[i] == *url {
            assert(strings_view(urls@)[i as int] == url@);
            return true;
        }
        i = i + 1;
    }
    proof {
        if strings_view(urls@).contains(url@) {
            let k = choose|k: int| 0 <= k < strings_view(urls@).len() && strings_view(urls@)[k] == url@;
            assert(urls@[k]@ == url@);
        }
    }
    false
}

/// The tracker URLs of one announce-list tier, each kept once.
fn parse_tier<'a>(trackers: &Vec<Node<'a>>) -> (urls: Result<Vec<String>, MetadataError<String>>)
    ensures
        urls matches Ok(u) ==> tier_urls(list_model(trackers@, trackers@.len() as int), Seq::empty())
            == Ok::<Seq<Seq<char>>, SpecError>(strings_view(u@)),
        urls matches Err(e) ==> tier_urls(list_model(trackers@, trackers@.len() as int), Seq::empty())
            == Err::<Seq<Seq<char>>, SpecError>(error_view(e)),
{
    let ghost all = list_model(trackers@, trackers@.len() as int);
    proof {
        lemma_list_model_len(trackers@, trackers@.len() as int);
        assert(all.subrange(0, all.len() as int) =~= all);
    }
    let mut urls: Vec<String> = Vec::new();
    proof {
        assert(strings_view(urls@) =~= Seq::<Seq<char>>::empty());
        match tier_urls(all, Seq::empty()) {
            Ok(r) => {
                assert(Seq::<Seq<char>>::empty() + r =~= r);
            },
            Err(e) => {},
        }
    }
    let mut i: usize = 0;
    while i < trackers.len()
        invariant
            i <= trackers@.len(),
            all == list_model(trackers@, trackers@.len() as int),
            all.len() == trackers@.len(),
            tier_urls(all, Seq::empty()) == match tier_urls(
                all.subrange(i as int, all.len() as int),
                strings_view(urls@),
            ) {
                Ok(rest) => Ok(strings_view(urls@) + rest),
                Err(e) => Err(e),
            },
        decreases trackers@.len() - i,
    {
        proof {
            lemma_list_model_entry(trackers@, trackers@.len() as int, i as int);
            let rest = all.subrange(i as int, all.len() as int);
            assert(rest[0] == all[i as int]);
            assert(rest.drop_first() =~= all.subrange(i + 1, all.len() as int));
        }
        let url = match node_text(&trackers[i]) {
            Ok(url) => url,
            Err(p) => {
                return Err(MetadataError::Field(MetadataField::AnnounceUrl, p));
            },
        };
        if url.as_str().is_empty() {
            return Err(MetadataError::EmptyTrackerUrl);
        }
        if !contains_string(&urls, &url) {
            let ghost before = strings_view(urls@);
            urls.push(url);
            proof {
                assert(strings_view(urls@) =~= before.push(url@));
                match tier_urls(all.subrange(i + 1, all.len() as int), before.push(url@)) {
                    Ok(r) => {
                        assert(before + (seq![url@] + r) =~= before.push(url@) + r);
                    },
                    Err(e) => {},
                }
            }
        }
        i = i + 1;
    }
    proof {
        assert(all.subrange(i as int, all.len() as int) =~= Seq::<BNode>::empty());
        assert(strings_view(urls@) + Seq::<Seq<char>>::empty() =~= strings_view(urls@));
    }
    Ok(urls)
}


/// The tiers of an announce list, each tracker URL kept once per tier and
/// empty tiers dropped.
pub fn parse_announce_list<'a>(node: &Node<'a>) -> (tiers: Result<
    Vec<Vec<String>>,
    MetadataError<String>,
>)
    ensures
        tiers matches Ok(t) ==> announce_list_of(node_model(*node)) == Ok::<
            Seq<Seq<Seq<char>>>,
            SpecError,
        >(tiers_view(t@)),
        tiers matches Err(e) ==> announce_list_of(node_model(*node)) == Err::<
            Seq<Seq<Seq<char>>>,
            SpecError,
        >(error_view(e)),
{
    let tiers = match &node.value {
        Value::List(tiers) => tiers,
        _ => {
            return Err(MetadataError::Field(MetadataField::AnnounceList, Problem::NotList));
        },
    };
    let ghost all = list_model(tiers@, tiers@.len() as int);
    proof {
        lemma_list_model_len(tiers@, tiers@.len() as int);
        assert(all.subrange(0, all.len() as int) =~= all);
    }
    if tiers.len() > MAX_TRACKER_TIERS {
        return Err(MetadataError::TooManyTiers);
    }
    let mut parsed: Vec<Vec<String>> = Vec::new();
    proof {
        assert(tiers_view(parsed@) =~= Seq::<Seq<Seq<char>>>::empty());
        match announce_tiers(all) {
            Ok(r) => {
                assert(Seq::<Seq<Seq<char>>>::empty() + r =~= r);
            },
            Err(e) => {},
        }
    }
    let mut i: usize = 0;
    while i < tiers.len()
        invariant
            i <= tiers@.len(),
            all == list_model(tiers@, tiers@.len() as int),
            all.len() == tiers@.len(),
            all.len() <= MAX_TRACKER_TIERS,
            announce_list_of(node_model(*node)) == announce_tiers(all),
            announce_tiers(all) == match announce_tiers(all.subrange(i as int, all.len() as int)) {
                Ok(rest) => Ok(tiers_view(parsed@) + rest),
                Err(e) => Err(e),
            },
        decreases tiers@.len() - i,
    {
        proof {
            lemma_list_model_entry(tiers@, tiers@.len() as int, i as int);
            let rest = all.subrange(i as int, all.len() as int);
            assert(rest[0] == all[i as int]);
            assert(rest.drop_first() =~= all.subrange(i + 1, all.len() as int));
        }
        let trackers = match &tiers[i].value {
            Value::List(trackers) => trackers,
            _ => {
                return Err(MetadataError::Field(MetadataField::AnnounceTier, Problem::NotList));
            },
        };
        proof {
            lemma_list_model_len(trackers@, trackers@.len() as int);
        }
        if trackers.len() > MAX_TRACKERS_PER_TIER {
            return Err(MetadataError::TooManyTrackers);
        }
        let urls = match parse_tier(trackers) {
            Ok(urls) => urls,
            Err(e) => {
                return Err(e);
            },
        };
        if urls.len() > 0 {
            let ghost before = tiers_view(parsed@);
            parsed.push(urls);
            proof {
                assert(tiers_view(parsed@) =~= before.push(strings_view(urls@)));
                match announce_tiers(all.subrange(i + 1, all.len() as int)) {
                    Ok(r) => {
                        assert(before + (seq![strings_view(urls@)] + r) =~= before.push(
                            strings_view(urls@),
                        ) + r);
                    },
                    Err(e) => {},
                }
            }
        } else {
            assert(strings_view(urls@).len() == 0);
        }
        i = i + 1;
    }
    proof {
        assert(all.subrange(i as int, all.len() as int) =~= Seq::<BNode>::empty());
        assert(tiers_view(parsed@) + Seq::<Seq<Seq<char>>>::empty() =~= tiers_view(parsed@));
    }
    Ok(parsed)
}

/// Lower-case hex of each 20-byte piece digest.
fn piece_hex(pieces: &[u8]) -> (digests: Vec<String>)
    requires
        pieces@.len() % 20 == 0,
    ensures
        strings_view(digests@) == piece_digests(pieces@),
{
    let n = pieces.len();
    let count = n / 20;
    let mut digests: Vec<String> = Vec::new();
    let mut i: usize = 0;
    while i < count
        invariant
            count == pieces@.len() / 20,
            n == pieces@.len(),
            i <= count,
            digests@.len() == i,
            forall|j: int| 0 <= j < i ==> #[trigger] digests@[j]@ == piece_digests(pieces@)[j],
        decreases count - i,
    {
        assert(20 * i + 20 <= n) by (nonlinear_arith)
            requires
                i < count,
                count == n / 20,
        ;
        let chunk = &pieces[20 * i..20 * i + 20];
        digests.push(hex_encode(chunk));
        i = i + 1;
    }
    assert(strings_view(digests@) =~= piece_digests(pieces@));
    digests
}

/// The bytes of the root's `info` value, when the bytes are a bencoded
/// dictionary that holds one.
pub open spec fn info_bytes(b: Seq<u8>) -> Option<Seq<u8>> {
    match parse_node(b, 0, 0) {
        Err(_) => None,
        Ok(root) => match root.value {
            BValue::Dictionary(rd) => match dict_lookup(rd, "info".spec_bytes()) {
                None => None,
                Some(info) => Some(b.subrange(info.start, info.end)),
            },
            _ => None,
        },
    }
}

/// A torrent's info-hash is the SHA-1 of its info value's own bytes, so two
/// torrents whose info values are the same bytes have the same info-hash,
/// whatever else their roots hold (an announce URL, an announce list).
pub proof fn law_info_hash_of_info_bytes(b1: Seq<u8>, b2: Seq<u8>)
    ensures
        torrent_from(b1) is Ok ==> torrent_from(b1)->Ok_0.info_hash_sha1 == ascii_chars(
            hex_lower(sha1_digest(info_bytes(b1)->0)),
        ),
        torrent_from(b1) is Ok && torrent_from(b2) is Ok && info_bytes(b1) == info_bytes(b2)
            ==> torrent_from(b1)->Ok_0.info_hash_sha1 == torrent_from(b2)->Ok_0.info_hash_sha1,
{
    lemma_torrent_info_hash(b1);
    lemma_torrent_info_hash(b2);
}

proof fn lemma_torrent_info_hash(b: Seq<u8>)
    ensures
        torrent_from(b) is Ok ==> info_bytes(b) is Some && torrent_from(b)->Ok_0.info_hash_sha1 == ascii_chars(
            hex_lower(sha1_digest(info_bytes(b)->0)),
        ),
{
}

/// Reads single-file BitTorrent v1 metadata from its bencoded bytes.
pub fn parse_v1_torrent(bytes: &[u8]) -> (torrent: Result<TorrentV1, MetadataError<String>>)
    ensures
        torrent matches Ok(t) ==> torrent_from(bytes@) == Ok::<TorrentModel, SpecError>(t@),
        torrent matches Err(e) ==> torrent_from(bytes@) == Err::<TorrentModel, SpecError>(
            error_view(e),
        ),
{
    let mut parser = Parser::new(bytes);
    let root = match parser.parse_node(0) {
        Ok(root) => root,
        Err(e) => {
            return Err(MetadataError::Bencode(e));
        },
    };
    if parser.position != bytes.len() {
        return Err(MetadataError::TrailingBytes);
    }
    let root_dictionary = match &root.value {
        Value::Dictionary(entries) => entries,
        _ => {
            return Err(MetadataError::Field(MetadataField::Root, Problem::NotDictionary));
        },
    };
    let info = match dictionary_value(root_dictionary, "info".as_bytes()) {
        Some(info) => info,
        None => {
            return Err(MetadataError::Field(MetadataField::Info, Problem::Missing));
        },
    };
    let info_dictionary = match &info.value {
        Value::Dictionary(entries) => entries,
        _ => {
            return Err(MetadataError::Field(MetadataField::Info, Problem::NotDictionary));
        },
    };
    if dictionary_value(info_dictionary, "files".as_bytes()).is_some() {
        return Err(MetadataError::MultiFile);
    }
    if dictionary_value(info_dictionary, "meta version".as_bytes()).is_some() {
        return Err(MetadataError::HybridMetadata);
    }
    let name = match dictionary_value(info_dictionary, "name".as_bytes()) {
        None => {
            return Err(MetadataError::Field(MetadataField::Name, Problem::Missing));
        },
        Some(node) => match node_text(node) {
            Ok(name) => name,
            Err(p) => {
                return Err(MetadataError::Field(MetadataField::Name, p));
            },
        },
    };
    let total_length = match dictionary_value(info_dictionary, "length".as_bytes()) {
        None => {
            return Err(MetadataError::Field(MetadataField::Length, Problem::Missing));
        },
        Some(node) => match node_unsigned(node) {
            Ok(v) => v,
            Err(p) => {
                return Err(MetadataError::Field(MetadataField::Length, p));
            },
        },
    };
    let piece_length = match dictionary_value(info_dictionary, "piece length".as_bytes()) {
        None => {
            return Err(MetadataError::Field(MetadataField::PieceLength, Problem::Missing));
        },
        Some(node) => match node_unsigned(node) {
            Ok(v) => v,
            Err(p) => {
                return Err(MetadataError::Field(MetadataField::PieceLength, p));
            },
        },
    };
    if piece_length == 0 {
        return Err(MetadataError::ZeroPieceLength);
    }
    if piece_length > MAX_BT_PIECE_LENGTH {
        return Err(MetadataError::PieceLengthTooLarge);
    }
    let pieces: &[u8] = match dictionary_value(info_dictionary, "pieces".as_bytes()) {
        None => {
            return Err(MetadataError::Field(MetadataField::Pieces, Problem::Missing));
        },
        Some(node) => match &node.value {
            Value::Bytes(pieces) => pieces,
            _ => {
                return Err(MetadataError::Field(MetadataField::Pieces, Problem::NotBytes));
            },
        },
    };
    if pieces.len() % 20 != 0 {
        return Err(MetadataError::PiecesLength);
    }
    let expected: u64 = if total_length == 0 {
        0
    } else {
        total_length / piece_length + if total_length % piece_length == 0 {
            0
        } else {
            1
        }
    };
    proof {
        if total_length > 0 {
            assert((total_length + piece_length - 1) / (piece_length as int) == total_length
                / piece_length + if total_length % piece_length == 0 {
                0int
            } else {
                1int
            }) by (nonlinear_arith)
                requires
                    piece_length > 0,
            ;
        }
    }
    if (pieces.len() / 20) as u64 != expected {
        return Err(MetadataError::PieceCountMismatch);
    }
    let piece_sha1 = piece_hex(pieces);
    let announce = match dictionary_value(root_dictionary, "announce".as_bytes()) {
        None => None,
        Some(node) => match node_text(node) {
            Ok(a) => Some(a),
            Err(p) => {
                return Err(MetadataError::Field(MetadataField::Announce, p));
            },
        },
    };
    let announce_list = match dictionary_value(root_dictionary, "announce-list".as_bytes()) {
        None => None,
        Some(node) => match parse_announce_list(node) {
            Ok(list) => Some(list),
            Err(e) => {
                return Err(e);
            },
        },
    };
    proof {
        let rd = dict_model(root_dictionary@, root_dictionary@.len() as int);
        assert(parse_node(bytes@, 0, 0) == Ok::<BNode, BencodeError>(node_model(root)));
        crate::bencode::lemma_entries_in_bounds(bytes@, 1, 0, Seq::empty());
        lemma_dict_lookup_member(rd, "info".spec_bytes());
    }
    let info_digest = sha1(&bytes[info.start..info.end]);
    let info_hash_sha1 = hex_encode(&info_digest);
    Ok(
        TorrentV1 {
            name,
            total_length,
            piece_length,
            piece_sha1,
            info_hash_sha1,
            announce,
            announce_list,
        },
    )
}


/// A peer's IP address: IPv4 or IPv6, as a big-endian number.
#[derive(Debug, Clone, Copy, PartialEq, Eq, Hash, Structural)]
pub enum PeerIp {
    V4(u32),
    V6(u128),
}

/// A peer's address and port.
#[derive(Debug, Clone, Copy, PartialEq, Eq, Hash, Structural)]
pub struct PeerAddr {
    pub ip: PeerIp,
    pub port: u16,
}

/// A tracker's answer to an announce.
#[derive(Debug, Clone, PartialEq, Eq)]
pub struct TrackerResponse {
    pub interval: u64,
    pub peers: Vec<PeerAddr>,
    pub warning_message: Option<String>,
}

pub struct TrackerModel {
    pub interval: u64,
    pub peers: Seq<PeerAddr>,
    pub warning_message: Option<Seq<char>>,
}

impl View for TrackerResponse {
    type V = TrackerModel;

    open spec fn view(&self) -> TrackerModel {
        TrackerModel {
            interval: self.interval,
            peers: self.peers@,
            warning_message: match self.warning_message {
                Some(w) => Some(w@),
                None => None,
            },
        }
    }
}

/// The number that bytes denote, most significant first.
pub open spec fn be_value(s: Seq<u8>) -> nat
    decreases s.len(),
{
    if s.len() == 0 {
        0
    } else {
        be_value(s.drop_last()) * 256 + s.last() as nat
    }
}

/// The address that IP text denotes (`false` for IPv4, `true` for IPv6, with
/// the address as a number), as the standard library parses it.
pub uninterp spec fn ip_address_text(text: Seq<char>) -> Option<(bool, u128)>;

/// `str::parse::<IpAddr>`: the IPv4 or IPv6 address that text denotes.
#[verifier::external_body]
fn parse_ip_text(text: &str) -> (ip: Option<(bool, u128)>)
    ensures
        ip == ip_address_text(text@),
        ip matches Some((v6, v)) ==> (!v6 ==> v <= u32::MAX),
{
    match text.parse::<core::net::IpAddr>() {
        Ok(core::net::IpAddr::V4(a)) => Some((false, u32::from(a) as u128)),
        Ok(core::net::IpAddr::V6(a)) => Some((true, u128::from(a))),
        Err(_) => None,
    }
}

/// The peer IP that IP text denotes.
pub open spec fn peer_ip_of(text: Seq<char>) -> Option<PeerIp> {
    match ip_address_text(text) {
        Some((v6, v)) => if v6 {
            Some(PeerIp::V6(v))
        } else {
            Some(PeerIp::V4(v as u32))
        },
        None => None,
    }
}

/// The peers of the first `k` six-byte entries of a compact IPv4 list; a
/// zero port drops the entry.
pub open spec fn compact_v4(c: Seq<u8>, k: int) -> Seq<PeerAddr>
    decreases k,
{
    if k <= 0 {
        Seq::empty()
    } else {
        let prev = compact_v4(c, k - 1);
        let o = 6 * (k - 1);
        let port = c[o + 4] as int * 256 + c[o + 5] as int;
        if port == 0 {
            prev
        } else {
            prev.push(
                PeerAddr { ip: PeerIp::V4(be_value(c.subrange(o, o + 4)) as u32), port: port as u16 },
            )
        }
    }
}

/// The peers of the first `k` eighteen-byte entries of a compact IPv6 list;
/// a zero port drops the entry.
pub open spec fn compact_v6(c: Seq<u8>, k: int) -> Seq<PeerAddr>
    decreases k,
{
    if k <= 0 {
        Seq::empty()
    } else {
        let prev = compact_v6(c, k - 1);
        let o = 18 * (k - 1);
        let port = c[o + 16] as int * 256 + c[o + 17] as int;
        if port == 0 {
            prev
        } else {
            prev.push(
                PeerAddr {
                    ip: PeerIp::V6(be_value(c.subrange(o, o + 16)) as u128),
                    port: port as u16,
                },
            )
        }
    }
}

/// The peer a dictionary-form entry describes; `None` for a zero port.
pub open spec fn peer_of(n: BNode) -> Result<Option<PeerAddr>, SpecError> {
    match n.value {
        BValue::Dictionary(d) => match required_text(d, "ip".spec_bytes(), MetadataField::PeerIp) {
            Err(e) => Err(e),
            Ok(text) => match peer_ip_of(text) {
                None => Err(MetadataError::InvalidPeerIp),
                Some(ip) => match required_unsigned(d, "port".spec_bytes(), MetadataField::PeerPort) {
                    Err(e) => Err(e),
                    Ok(port) => if port > 65535 {
                        Err(MetadataError::PeerPortRange)
                    } else if port == 0 {
                        Ok(None)
                    } else {
                        Ok(Some(PeerAddr { ip, port: port as u16 }))
                    },
                },
            },
        },
        _ => Err(MetadataError::Field(MetadataField::Peer, Problem::NotDictionary)),
    }
}

/// The peers of the first `k` dictionary-form entries.
pub open spec fn dict_peers(entries: Seq<BNode>, k: int) -> Result<Seq<PeerAddr>, SpecError>
    decreases k,
{
    if k <= 0 {
        Ok(Seq::empty())
    } else {
        match dict_peers(entries, k - 1) {
            Err(e) => Err(e),
            Ok(prev) => match peer_of(entries[k - 1]) {
                Err(e) => Err(e),
                Ok(None) => Ok(prev),
                Ok(Some(p)) => Ok(prev.push(p)),
            },
        }
    }
}

/// Peers in order with later repeats dropped.
pub open spec fn dedup_peers(s: Seq<PeerAddr>) -> Seq<PeerAddr>
    decreases s.len(),
{
    if s.len() == 0 {
        s
    } else {
        let d = dedup_peers(s.drop_last());
        if d.contains(s.last()) {
            d
        } else {
            d.push(s.last())
        }
    }
}

/// The peers under the `peers` key: compact IPv4 or a list of dictionaries.
pub open spec fn peers_of(d: Seq<(Seq<u8>, BNode)>) -> Result<Seq<PeerAddr>, SpecError> {
    match dict_lookup(d, "peers".spec_bytes()) {
        None => Ok(Seq::empty()),
        Some(n) => match n.value {
            BValue::Bytes(c) => if c.len() % 6 != 0 {
                Err(MetadataError::CompactPeersLength)
            } else {
                Ok(compact_v4(c, c.len() as int / 6))
            },
            BValue::List(entries) => dict_peers(entries, entries.len() as int),
            _ => Err(MetadataError::Field(MetadataField::Peers, Problem::NotPeerList)),
        },
    }
}

/// The peers under the `peers6` key: compact IPv6.
pub open spec fn peers6_of(d: Seq<(Seq<u8>, BNode)>) -> Result<Seq<PeerAddr>, SpecError> {
    match dict_lookup(d, "peers6".spec_bytes()) {
        None => Ok(Seq::empty()),
        Some(n) => match n.value {
            BValue::Bytes(c) => if c.len() % 18 != 0 {
                Err(MetadataError::CompactPeers6Length)
            } else {
                Ok(compact_v6(c, c.len() as int / 18))
            },
            _ => Err(MetadataError::Field(MetadataField::Peers6, Problem::NotBytes)),
        },
    }
}

/// The peers under `peers` followed by those under `peers6`.
pub open spec fn all_peers_of(d: Seq<(Seq<u8>, BNode)>) -> Result<Seq<PeerAddr>, SpecError> {
    match peers_of(d) {
        Err(e) => Err(e),
        Ok(p4) => match peers6_of(d) {
            Err(e) => Err(e),
            Ok(p6) => Ok(p4 + p6),
        },
    }
}

/// The response a tracker's dictionary holds.
pub open spec fn tracker_response_of(d: Seq<(Seq<u8>, BNode)>) -> Result<TrackerModel, SpecError> {
    match dict_lookup(d, "failure reason".spec_bytes()) {
        Some(f) => match text_of(f) {
            Ok(t) => Err(MetadataError::TrackerFailure(t)),
            Err(p) => Err(MetadataError::Field(MetadataField::FailureReason, p)),
        },
        None => {
            let interval = match dict_lookup(d, "interval".spec_bytes()) {
                None => Ok(0u64),
                Some(n) => match unsigned_of(n) {
                    Ok(v) => Ok(v),
                    Err(p) => Err(MetadataError::Field(MetadataField::Interval, p)),
                },
            };
            match interval {
                Err(e) => Err(e),
                Ok(interval) => match optional_text(
                    d,
                    "warning message".spec_bytes(),
                    MetadataField::WarningMessage,
                ) {
                    Err(e) => Err(e),
                    Ok(warning_message) => match all_peers_of(d) {
                        Err(e) => Err(e),
                        Ok(all) => Ok(
                            TrackerModel { interval, peers: dedup_peers(all), warning_message },
                        ),
                    },
                },
            }
        },
    }
}

/// The tracker response that bencoded bytes hold.
pub open spec fn tracker_response_from(b: Seq<u8>) -> Result<TrackerModel, SpecError> {
    match parse_node(b, 0, 0) {
        Err(e) => Err(MetadataError::Bencode(e)),
        Ok(root) => if root.end != b.len() {
            Err(MetadataError::TrailingBytes)
        } else {
            match root.value {
                BValue::Dictionary(d) => tracker_response_of(d),
                _ => Err(
                    MetadataError::Field(MetadataField::TrackerResponse, Problem::NotDictionary),
                ),
            }
        },
    }
}

/// The number that `bytes[start..start + width]` denote, most significant first.
pub fn be_number(bytes: &[u8], start: usize, width: usize) -> (value: u128)
    requires
        start + width <= bytes@.len(),
        width <= 16,
    ensures
        value == be_value(bytes@.subrange(start as int, start + width)),
{
    let n = bytes.len();
    let mut value: u128 = 0;
    let mut i: usize = 0;
    while i < width
        invariant
            n == bytes@.len(),
            start + width <= bytes@.len(),
            width <= 16,
            i <= width,
            value == be_value(bytes@.subrange(start as int, start + i)),
            value < pow256(i as nat),
        decreases width - i,
    {
        let ghost prefix = bytes@.subrange(start as int, start + i);
        assert(bytes@.subrange(start as int, start + i + 1).drop_last() =~= prefix);
        proof {
            lemma_pow256_bound(i as nat);
            assert(value * 256 + 255 < pow256((i + 1) as nat)) by (nonlinear_arith)
                requires
                    value < pow256(i as nat),
                    pow256((i + 1) as nat) == 256 * pow256(i as nat),
            ;
        }
        value = value * 256 + bytes[start + i] as u128;
        i = i + 1;
    }
    value
}

pub open spec fn pow256(k: nat) -> nat
    decreases k,
{
    if k == 0 {
        1
    } else {
        256 * pow256((k - 1) as nat)
    }
}

proof fn lemma_pow256_bound(k: nat)
    requires
        k <= 15,
    ensures
        pow256(k + 1) == 256 * pow256(k),
        pow256(k + 1) <= pow256(16),
        pow256(16) == 0x1_0000_0000_0000_0000_0000_0000_0000_0000,
    decreases 15 - k,
{
    reveal_with_fuel(pow256, 17);
    if k < 15 {
        lemma_pow256_bound(k + 1);
    }
}

/// Appends the peers of a compact IPv4 list.
pub fn parse_compact_ipv4_peers(bytes: &[u8], peers: &mut Vec<PeerAddr>) -> (result: Result<
    (),
    MetadataError<String>,
>)
    ensures
        result is Ok <==> bytes@.len() % 6 == 0,
        result is Ok ==> final(peers)@ == old(peers)@ + compact_v4(bytes@, bytes@.len() as int / 6),
        result matches Err(e) ==> e == MetadataError::<String>::CompactPeersLength && final(peers)@
            == old(peers)@,
{
    let n = bytes.len();
    if n % 6 != 0 {
        return Err(MetadataError::CompactPeersLength);
    }
    let ghost start = peers@;
    let count = n / 6;
    let mut k: usize = 0;
    assert(start + compact_v4(bytes@, 0) =~= start);
    while k < count
        invariant
            n == bytes@.len(),
            count == n / 6,
            k <= count,
            peers@ == start + compact_v4(bytes@, k as int),
        decreases count - k,
    {
        assert(6 * k + 6 <= n) by (nonlinear_arith)
            requires
                k < count,
                count == n / 6,
        ;
        let o = 6 * k;
        let port: u16 = bytes[o + 4] as u16 * 256 + bytes[o + 5] as u16;
        if port != 0 {
            let v = be_number(bytes, o, 4);
            proof {
                lemma_be_value_bound(bytes@.subrange(o as int, o + 4));
            }
            peers.push(PeerAddr { ip: PeerIp::V4(v as u32), port });
        }
        k = k + 1;
    }
    Ok(())
}

/// Appends the peers of a compact IPv6 list.
pub fn parse_compact_ipv6_peers(bytes: &[u8], peers: &mut Vec<PeerAddr>) -> (result: Result<
    (),
    MetadataError<String>,
>)
    ensures
        result is Ok <==> bytes@.len() % 18 == 0,
        result is Ok ==> final(peers)@ == old(peers)@ + compact_v6(bytes@, bytes@.len() as int / 18),
        result matches Err(e) ==> e == MetadataError::<String>::CompactPeers6Length && final(peers)@
            == old(peers)@,
{
    let n = bytes.len();
    if n % 18 != 0 {
        return Err(MetadataError::CompactPeers6Length);
    }
    let ghost start = peers@;
    let count = n / 18;
    let mut k: usize = 0;
    assert(start + compact_v6(bytes@, 0) =~= start);
    while k < count
        invariant
            n == bytes@.len(),
            count == n / 18,
            k <= count,
            peers@ == start + compact_v6(bytes@, k as int),
        decreases count - k,
    {
        assert(18 * k + 18 <= n) by (nonlinear_arith)
            requires
                k < count,
                count == n / 18,
        ;
        let o = 18 * k;
        let port: u16 = bytes[o + 16] as u16 * 256 + bytes[o + 17] as u16;
        if port != 0 {
            let v = be_number(bytes, o, 16);
            peers.push(PeerAddr { ip: PeerIp::V6(v), port });
        }
        k = k + 1;
    }
    Ok(())
}

proof fn lemma_be_value_bound(s: Seq<u8>)
    requires
        s.len() == 4,
    ensures
        be_value(s) <= u32::MAX,
{
    reveal_with_fuel(be_value, 5);
    assert(s.drop_last().drop_last().drop_last().drop_last().len() == 0);
}


/// The peer a dictionary-form entry describes; `None` for a zero port.
fn parse_dictionary_peer<'a>(node: &Node<'a>) -> (peer: Result<Option<PeerAddr>, MetadataError<String>>)
    ensures
        peer matches Ok(p) ==> peer_of(node_model(*node)) == Ok::<Option<PeerAddr>, SpecError>(p),
        peer matches Err(e) ==> peer_of(node_model(*node)) == Err::<Option<PeerAddr>, SpecError>(
            error_view(e),
        ),
{
    let dictionary = match &node.value {
        Value::Dictionary(entries) => entries,
        _ => {
            return Err(MetadataError::Field(MetadataField::Peer, Problem::NotDictionary));
        },
    };
    let text = match dictionary_value(dictionary, "ip".as_bytes()) {
        None => {
            return Err(MetadataError::Field(MetadataField::PeerIp, Problem::Missing));
        },
        Some(n) => match node_text(n) {
            Ok(t) => t,
            Err(p) => {
                return Err(MetadataError::Field(MetadataField::PeerIp, p));
            },
        },
    };
    let ip = match parse_ip_text(text.as_str()) {
        None => {
            return Err(MetadataError::InvalidPeerIp);
        },
        Some((v6, v)) => if v6 {
            PeerIp::V6(v)
        } else {
            PeerIp::V4(v as u32)
        },
    };
    let port = match dictionary_value(dictionary, "port".as_bytes()) {
        None => {
            return Err(MetadataError::Field(MetadataField::PeerPort, Problem::Missing));
        },
        Some(n) => match node_unsigned(n) {
            Ok(v) => v,
            Err(p) => {
                return Err(MetadataError::Field(MetadataField::PeerPort, p));
            },
        },
    };
    if port > 65535 {
        return Err(MetadataError::PeerPortRange);
    }
    if port == 0 {
        Ok(None)
    } else {
        Ok(Some(PeerAddr { ip, port: port as u16 }))
    }
}

/// Appends the peers of a list of dictionary-form entries.
pub fn parse_dictionary_peers<'a>(entries: &Vec<Node<'a>>, peers: &mut Vec<PeerAddr>) -> (result:
    Result<(), MetadataError<String>>)
    ensures
        result is Ok ==> dict_peers(
            list_model(entries@, entries@.len() as int),
            entries@.len() as int,
        ) == Ok::<Seq<PeerAddr>, SpecError>(final(peers)@.subrange(
            old(peers)@.len() as int,
            final(peers)@.len() as int,
        )) && final(peers)@.subrange(0, old(peers)@.len() as int) == old(peers)@,
        result matches Err(e) ==> dict_peers(
            list_model(entries@, entries@.len() as int),
            entries@.len() as int,
        ) == Err::<Seq<PeerAddr>, SpecError>(error_view(e)),
{
    let ghost all = list_model(entries@, entries@.len() as int);
    let ghost start = peers@;
    proof {
        lemma_list_model_len(entries@, entries@.len() as int);
    }
    let mut k: usize = 0;
    assert(peers@.subrange(start.len() as int, peers@.len() as int) =~= Seq::<PeerAddr>::empty());
    while k < entries.len()
        invariant
            k <= entries@.len(),
            all == list_model(entries@, entries@.len() as int),
            all.len() == entries@.len(),
            start.len() <= peers@.len(),
            peers@.subrange(0, start.len() as int) == start,
            dict_peers(all, k as int) == Ok::<Seq<PeerAddr>, SpecError>(
                peers@.subrange(start.len() as int, peers@.len() as int),
            ),
        decreases entries@.len() - k,
    {
        proof {
            lemma_list_model_entry(entries@, entries@.len() as int, k as int);
        }
        match parse_dictionary_peer(&entries[k]) {
            Err(e) => {
                proof {
                    lemma_dict_peers_err(all, k + 1, all.len() as int);
                }
                return Err(e);
            },
            Ok(None) => {},
            Ok(Some(p)) => {
                let ghost before = peers@;
                peers.push(p);
                assert(peers@.subrange(0, start.len() as int) =~= before.subrange(
                    0,
                    start.len() as int,
                ));
                assert(peers@.subrange(start.len() as int, peers@.len() as int) =~= before.subrange(
                    start.len() as int,
                    before.len() as int,
                ).push(p));
            },
        }
        k = k + 1;
    }
    Ok(())
}

/// Whether `peer` is among `peers`.
fn contains_peer(peers: &Vec<PeerAddr>, peer: PeerAddr) -> (found: bool)
    ensures
        found == peers@.contains(peer),
{
    let mut i: usize = 0;
    while i < peers.len()
        invariant
            i <= peers@.len(),
            forall|j: int| 0 <= j < i ==> peers@[j] != peer,
        decreases peers@.len() - i,
    {
        if peers[i] == peer {
            return true;
        }
        i = i + 1;
    }
    false
}

/// Peers in order with later repeats dropped.
pub fn dedup_peer_list(peers: &Vec<PeerAddr>) -> (unique: Vec<PeerAddr>)
    ensures
        unique@ == dedup_peers(peers@),
{
    let mut unique: Vec<PeerAddr> = Vec::new();
    let mut i: usize = 0;
    assert(peers@.subrange(0, 0) =~= Seq::<PeerAddr>::empty());
    while i < peers.len()
        invariant
            i <= peers@.len(),
            unique@ == dedup_peers(peers@.subrange(0, i as int)),
        decreases peers@.len() - i,
    {
        assert(peers@.subrange(0, i + 1).drop_last() =~= peers@.subrange(0, i as int));
        let p = peers[i];
        if !contains_peer(&unique, p) {
            unique.push(p);
        }
        i = i + 1;
    }
    assert(peers@.subrange(0, peers@.len() as int) =~= peers@);
    unique
}

/// The peers under `peers` followed by those under `peers6`.
fn collect_peers<'a>(dictionary: &Vec<(&'a [u8], Node<'a>)>) -> (peers: Result<
    Vec<PeerAddr>,
    MetadataError<String>,
>)
    ensures
        peers matches Ok(p) ==> all_peers_of(dict_model(dictionary@, dictionary@.len() as int))
            == Ok::<Seq<PeerAddr>, SpecError>(p@),
        peers matches Err(e) ==> all_peers_of(dict_model(dictionary@, dictionary@.len() as int))
            == Err::<Seq<PeerAddr>, SpecError>(error_view(e)),
{
    let mut peers: Vec<PeerAddr> = Vec::new();
    match dictionary_value(dictionary, "peers".as_bytes()) {
        None => {},
        Some(node) => match &node.value {
            Value::Bytes(compact) => {
                match parse_compact_ipv4_peers(compact, &mut peers) {
                    Ok(()) => {},
                    Err(e) => {
                        return Err(e);
                    },
                }
                assert(peers@ =~= compact_v4(compact@, compact@.len() as int / 6));
            },
            Value::List(entries) => {
                proof {
                    lemma_list_model_len(entries@, entries@.len() as int);
                }
                match parse_dictionary_peers(entries, &mut peers) {
                    Ok(()) => {},
                    Err(e) => {
                        return Err(e);
                    },
                }
                assert(peers@ =~= peers@.subrange(0, peers@.len() as int));
            },
            _ => {
                return Err(MetadataError::Field(MetadataField::Peers, Problem::NotPeerList));
            },
        },
    }
    let ghost p4 = peers@;
    assert(peers_of(dict_model(dictionary@, dictionary@.len() as int)) == Ok::<
        Seq<PeerAddr>,
        SpecError,
    >(p4));
    match dictionary_value(dictionary, "peers6".as_bytes()) {
        None => {
            assert(p4 + Seq::<PeerAddr>::empty() =~= p4);
        },
        Some(node) => match &node.value {
            Value::Bytes(compact) => {
                match parse_compact_ipv6_peers(compact, &mut peers) {
                    Ok(()) => {},
                    Err(e) => {
                        return Err(e);
                    },
                }
            },
            _ => {
                return Err(MetadataError::Field(MetadataField::Peers6, Problem::NotBytes));
            },
        },
    }
    Ok(peers)
}

/// Once a prefix of dictionary-form peers is refused, every longer prefix is
/// refused the same way.
proof fn lemma_dict_peers_err(entries: Seq<BNode>, k: int, m: int)
    requires
        0 <= k <= m,
        dict_peers(entries, k) is Err,
    ensures
        dict_peers(entries, m) == dict_peers(entries, k),
    decreases m - k,
{
    if m > k {
        lemma_dict_peers_err(entries, k, m - 1);
    }
}

/// Reads a tracker's bencoded answer to an announce.
pub fn parse_tracker_response(bytes: &[u8]) -> (response: Result<
    TrackerResponse,
    MetadataError<String>,
>)
    ensures
        response matches Ok(r) ==> tracker_response_from(bytes@) == Ok::<TrackerModel, SpecError>(
            r@,
        ),
        response matches Err(e) ==> tracker_response_from(bytes@) == Err::<TrackerModel, SpecError>(
            error_view(e),
        ),
{
    let mut parser = Parser::new(bytes);
    let root = match parser.parse_node(0) {
        Ok(root) => root,
        Err(e) => {
            return Err(MetadataError::Bencode(e));
        },
    };
    if parser.position != bytes.len() {
        return Err(MetadataError::TrailingBytes);
    }
    let dictionary = match &root.value {
        Value::Dictionary(entries) => entries,
        _ => {
            return Err(MetadataError::Field(MetadataField::TrackerResponse, Problem::NotDictionary));
        },
    };
    match dictionary_value(dictionary, "failure reason".as_bytes()) {
        Some(node) => match node_text(node) {
            Ok(t) => {
                return Err(MetadataError::TrackerFailure(t));
            },
            Err(p) => {
                return Err(MetadataError::Field(MetadataField::FailureReason, p));
            },
        },
        None => {},
    }
    let interval = match dictionary_value(dictionary, "interval".as_bytes()) {
        None => 0,
        Some(node) => match node_unsigned(node) {
            Ok(v) => v,
            Err(p) => {
                return Err(MetadataError::Field(MetadataField::Interval, p));
            },
        },
    };
    let warning_message = match dictionary_value(dictionary, "warning message".as_bytes()) {
        None => None,
        Some(node) => match node_text(node) {
            Ok(t) => Some(t),
            Err(p) => {
                return Err(MetadataError::Field(MetadataField::WarningMessage, p));
            },
        },
    };
    let peers = match collect_peers(dictionary) {
        Ok(peers) => peers,
        Err(e) => {
            return Err(e);
        },
    };
    let unique = dedup_peer_list(&peers);
    Ok(TrackerResponse { interval, peers: unique, warning_message })
}


/// A copy of a list of strings.
pub fn copy_strings(v: &Vec<String>) -> (c: Vec<String>)
    ensures
        strings_view(c@) == strings_view(v@),
{
    let mut c: Vec<String> = Vec::new();
    let mut i: usize = 0;
    while i < v.len()
        invariant
            i <= v@.len(),
            c@.len() == i,
            forall|j: int| 0 <= j < i ==> (#[trigger] c@[j])@ == v@[j]@,
        decreases v@.len() - i,
    {
        c.push(v[i].clone());
        i = i + 1;
    }
    assert(strings_view(c@) =~= strings_view(v@));
    c
}

/// A copy of tracker tiers.
pub fn copy_tiers(v: &Vec<Vec<String>>) -> (c: Vec<Vec<String>>)
    ensures
        tiers_view(c@) == tiers_view(v@),
{
    let mut c: Vec<Vec<String>> = Vec::new();
    let mut i: usize = 0;
    while i < v.len()
        invariant
            i <= v@.len(),
            c@.len() == i,
            forall|j: int| 0 <= j < i ==> strings_view((#[trigger] c@[j])@) == strings_view(v@[j]@),
        decreases v@.len() - i,
    {
        c.push(copy_strings(&v[i]));
        i = i + 1;
    }
    assert(tiers_view(c@) =~= tiers_view(v@));
    c
}

impl TorrentV1 {
    /// A copy of the metadata.
    pub fn duplicate(&self) -> (copy: TorrentV1)
        ensures
            copy@ == self@,
    {
        TorrentV1 {
            name: self.name.clone(),
            total_length: self.total_length,
            piece_length: self.piece_length,
            piece_sha1: copy_strings(&self.piece_sha1),
            info_hash_sha1: self.info_hash_sha1.clone(),
            announce: match &self.announce {
                Some(a) => Some(a.clone()),
                None => None,
            },
            announce_list: match &self.announce_list {
                Some(l) => Some(copy_tiers(l)),
                None => None,
            },
        }
    }
}

} // verus!
