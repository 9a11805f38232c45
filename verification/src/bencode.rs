//! Bencode, the encoding of BitTorrent metadata and tracker responses.

use vstd::prelude::*;

use crate::bytes::bytes_equal;
use crate::text::{all_digits, all_digits_in, digits_value, digits_value_in, find_byte, find_byte_in};

verus! {

/// Nesting deeper than this is refused.
pub const MAX_BENCODE_DEPTH: usize = 128;

/// Why bencoded input was refused.
#[derive(Debug, Clone, Copy, PartialEq, Eq, Structural)]
pub enum BencodeError {
    /// Lists and dictionaries are nested deeper than the limit.
    TooDeep,
    /// The input ends where a value should begin.
    UnexpectedEnd,
    /// A value begins with a byte that is no bencode marker.
    InvalidMarker,
    /// An integer has no closing `e`, or a byte-string length has no `:`.
    Unterminated,
    /// `ie`.
    EmptyInteger,
    /// An integer with a leading zero, or `-0`.
    NonCanonicalInteger,
    /// An integer with a byte that is no decimal digit.
    InvalidInteger,
    /// An integer outside the signed 64-bit range.
    IntegerOverflow,
    /// A byte-string length with a leading zero.
    LengthLeadingZero,
    /// A byte-string length that is not a decimal number that fits in `usize`.
    InvalidLength,
    /// The end of a byte string overflows `usize`.
    LengthOverflow,
    /// A byte string runs past the end of the input.
    PastEnd,
    /// A dictionary key is not a byte string.
    KeyNotBytes,
    /// A dictionary key occurs twice.
    DuplicateKey,
}

/// A parsed value, as mathematics.
pub enum BValue {
    Integer(int),
    Bytes(Seq<u8>),
    List(Seq<BNode>),
    Dictionary(Seq<(Seq<u8>, BNode)>),
}

/// A parsed value with the span `start..end` of input it was read from.
pub struct BNode {
    pub value: BValue,
    pub start: int,
    pub end: int,
}

/// Position of the first `needle` at or after `p`, or `b.len()` when there is none.
pub open spec fn find_from(b: Seq<u8>, p: int, needle: u8) -> int {
    p + find_byte(b.subrange(p, b.len() as int), needle)
}

/// The integer an integer token denotes (the bytes between `i` and `e`).
pub open spec fn integer_text(raw: Seq<u8>) -> Result<int, BencodeError> {
    if raw.len() == 0 {
        Err(BencodeError::EmptyInteger)
    } else if (raw.len() > 1 && raw[0] == 48) || (raw[0] == 45 && (raw.len() == 1 || raw[1]
        == 48)) {
        Err(BencodeError::NonCanonicalInteger)
    } else {
        let negative = raw[0] == 45;
        let digits = if negative {
            raw.drop_first()
        } else {
            raw
        };
        if !all_digits(digits) {
            Err(BencodeError::InvalidInteger)
        } else {
            let magnitude = digits_value(digits) as int;
            let v = if negative {
                -magnitude
            } else {
                magnitude
            };
            if v < i64::MIN || v > i64::MAX {
                Err(BencodeError::IntegerOverflow)
            } else {
                Ok(v)
            }
        }
    }
}

/// The length a byte-string length token denotes (the digits before `:`).
pub open spec fn length_text(raw: Seq<u8>) -> Result<int, BencodeError> {
    if raw.len() > 1 && raw[0] == 48 {
        Err(BencodeError::LengthLeadingZero)
    } else if raw.len() == 0 || !all_digits(raw) || digits_value(raw) > usize::MAX {
        Err(BencodeError::InvalidLength)
    } else {
        Ok(digits_value(raw) as int)
    }
}

/// The integer node whose `i` marker is at `pos`.
pub open spec fn parse_integer_at(b: Seq<u8>, pos: int) -> Result<BNode, BencodeError> {
    let e = find_from(b, pos + 1, 101);
    if e >= b.len() {
        Err(BencodeError::Unterminated)
    } else {
        match integer_text(b.subrange(pos + 1, e)) {
            Ok(v) => Ok(BNode { value: BValue::Integer(v), start: pos, end: e + 1 }),
            Err(err) => Err(err),
        }
    }
}

/// The byte-string node whose length begins at `pos`.
pub open spec fn parse_bytes_at(b: Seq<u8>, pos: int) -> Result<BNode, BencodeError> {
    let colon = find_from(b, pos, 58);
    if colon >= b.len() {
        Err(BencodeError::Unterminated)
    } else {
        match length_text(b.subrange(pos, colon)) {
            Err(err) => Err(err),
            Ok(length) => {
                let data_end = colon + 1 + length;
                if data_end > usize::MAX {
                    Err(BencodeError::LengthOverflow)
                } else if data_end > b.len() {
                    Err(BencodeError::PastEnd)
                } else {
                    Ok(
                        BNode {
                            value: BValue::Bytes(b.subrange(colon + 1, data_end)),
                            start: pos,
                            end: data_end,
                        },
                    )
                }
            },
        }
    }
}

/// The value that begins at `pos`, nested `depth` deep.
pub open spec fn parse_node(b: Seq<u8>, pos: int, depth: int) -> Result<BNode, BencodeError>
    decreases b.len() - pos, 0int,
{
    if depth > MAX_BENCODE_DEPTH {
        Err(BencodeError::TooDeep)
    } else if pos < 0 || pos >= b.len() {
        Err(BencodeError::UnexpectedEnd)
    } else {
        let marker = b[pos];
        if marker == 105 {
            parse_integer_at(b, pos)
        } else if marker == 108 {
            match parse_list_items(b, pos + 1, depth) {
                Ok((items, end)) => Ok(BNode { value: BValue::List(items), start: pos, end }),
                Err(err) => Err(err),
            }
        } else if marker == 100 {
            match parse_dict_entries(b, pos + 1, depth, Seq::empty()) {
                Ok((entries, end)) => Ok(
                    BNode { value: BValue::Dictionary(entries), start: pos, end },
                ),
                Err(err) => Err(err),
            }
        } else if 48 <= marker && marker <= 57 {
            parse_bytes_at(b, pos)
        } else {
            Err(BencodeError::InvalidMarker)
        }
    }
}

/// The items of a list from `pos` up to and including its closing `e`, and the
/// position after it.
pub open spec fn parse_list_items(b: Seq<u8>, pos: int, depth: int) -> Result<
    (Seq<BNode>, int),
    BencodeError,
>
    decreases b.len() - pos, 1int,
{
    if 0 <= pos < b.len() && b[pos] == 101 {
        Ok((Seq::empty(), pos + 1))
    } else {
        match parse_node(b, pos, depth + 1) {
            Err(err) => Err(err),
            Ok(item) => if item.end <= pos || item.end > b.len() {
                Err(BencodeError::UnexpectedEnd)
            } else {
                match parse_list_items(b, item.end, depth) {
                    Ok((rest, end)) => Ok((seq![item] + rest, end)),
                    Err(err) => Err(err),
                }
            },
        }
    }
}

/// The entries of a dictionary from `pos` up to and including its closing
/// `e`, and the position after it; `seen` holds the keys read before `pos`.
pub open spec fn parse_dict_entries(b: Seq<u8>, pos: int, depth: int, seen: Seq<Seq<u8>>) -> Result<
    (Seq<(Seq<u8>, BNode)>, int),
    BencodeError,
>
    decreases b.len() - pos, 1int,
{
    if 0 <= pos < b.len() && b[pos] == 101 {
        Ok((Seq::empty(), pos + 1))
    } else {
        match parse_node(b, pos, depth + 1) {
            Err(err) => Err(err),
            Ok(k) => if k.end <= pos || k.end > b.len() {
                Err(BencodeError::UnexpectedEnd)
            } else {
                match k.value {
                    BValue::Bytes(key) => if seen.contains(key) {
                        Err(BencodeError::DuplicateKey)
                    } else {
                        match parse_node(b, k.end, depth + 1) {
                            Err(err) => Err(err),
                            Ok(v) => if v.end <= k.end || v.end > b.len() {
                                Err(BencodeError::UnexpectedEnd)
                            } else {
                                match parse_dict_entries(b, v.end, depth, seen.push(key)) {
                                    Ok((rest, end)) => Ok((seq![(key, v)] + rest, end)),
                                    Err(err) => Err(err),
                                }
                            },
                        }
                    },
                    _ => Err(BencodeError::KeyNotBytes),
                }
            },
        }
    }
}

/// A parsed value, borrowing byte strings from the input.
pub struct Node<'a> {
    pub value: Value<'a>,
    pub start: usize,
    pub end: usize,
}

pub enum Value<'a> {
    Integer(i64),
    Bytes(&'a [u8]),
    List(Vec<Node<'a>>),
    Dictionary(Vec<(&'a [u8], Node<'a>)>),
}

/// The mathematical value a parsed node stands for.
pub open spec fn node_model<'a>(n: Node<'a>) -> BNode
    decreases n, 0int,
{
    BNode {
        value: match n.value {
            Value::Integer(v) => BValue::Integer(v as int),
            Value::Bytes(b) => BValue::Bytes(b@),
            Value::List(items) => BValue::List(list_model(items@, items@.len() as int)),
            Value::Dictionary(entries) => BValue::Dictionary(
                dict_model(entries@, entries@.len() as int),
            ),
        },
        start: n.start as int,
        end: n.end as int,
    }
}

/// The models of the first `i` nodes of `v`.
pub open spec fn list_model<'a>(v: Seq<Node<'a>>, i: int) -> Seq<BNode>
    decreases v, i,
{
    if i <= 0 || i > v.len() {
        Seq::empty()
    } else {
        list_model(v, i - 1).push(node_model(v[i - 1]))
    }
}

/// The models of the first `i` entries of `v`.
pub open spec fn dict_model<'a>(v: Seq<(&'a [u8], Node<'a>)>, i: int) -> Seq<(Seq<u8>, BNode)>
    decreases v, i,
{
    if i <= 0 || i > v.len() {
        Seq::empty()
    } else {
        dict_model(v, i - 1).push((v[i - 1].0@, node_model(v[i - 1].1)))
    }
}

proof fn lemma_list_model_prefix<'a>(v: Seq<Node<'a>>, n: Node<'a>, i: int)
    requires
        0 <= i <= v.len(),
    ensures
        list_model(v.push(n), i) == list_model(v, i),
    decreases i,
{
    if i > 0 {
        lemma_list_model_prefix(v, n, i - 1);
    }
}

proof fn lemma_dict_model_prefix<'a>(v: Seq<(&'a [u8], Node<'a>)>, e: (&'a [u8], Node<'a>), i: int)
    requires
        0 <= i <= v.len(),
    ensures
        dict_model(v.push(e), i) == dict_model(v, i),
    decreases i,
{
    if i > 0 {
        lemma_dict_model_prefix(v, e, i - 1);
    }
}

/// The keys of parsed dictionary entries.
pub open spec fn entry_keys(entries: Seq<(Seq<u8>, BNode)>) -> Seq<Seq<u8>> {
    entries.map_values(|e: (Seq<u8>, BNode)| e.0)
}

/// The signed integer that `bytes[start..end]` denotes as an integer token.
fn integer_value(bytes: &[u8], start: usize, end: usize) -> (value: Result<i64, BencodeError>)
    requires
        start <= end <= bytes@.len(),
    ensures
        value matches Ok(v) ==> integer_text(bytes@.subrange(start as int, end as int)) == Ok::<
            int,
            BencodeError,
        >(v as int),
        value matches Err(e) ==> integer_text(bytes@.subrange(start as int, end as int)) == Err::<
            int,
            BencodeError,
        >(e),
{
    let ghost raw = bytes@.subrange(start as int, end as int);
    if end == start {
        return Err(BencodeError::EmptyInteger);
    }
    let first = bytes[start];
    if (end - start > 1 && first == 48) || (first == 45 && (end - start == 1 || bytes[start + 1]
        == 48)) {
        return Err(BencodeError::NonCanonicalInteger);
    }
    let negative = first == 45;
    let digits_start = if negative {
        start + 1
    } else {
        start
    };
    assert(raw.drop_first() =~= bytes@.subrange(start + 1, end as int));
    if !all_digits_in(bytes, digits_start, end) {
        return Err(BencodeError::InvalidInteger);
    }
    match digits_value_in(bytes, digits_start, end) {
        None => Err(BencodeError::IntegerOverflow),
        Some(magnitude) => {
            if negative {
                if magnitude > 9_223_372_036_854_775_808u64 {
                    Err(BencodeError::IntegerOverflow)
                } else if magnitude == 9_223_372_036_854_775_808u64 {
                    Ok(i64::MIN)
                } else {
                    Ok(-(magnitude as i64))
                }
            } else {
                if magnitude > 9_223_372_036_854_775_807u64 {
                    Err(BencodeError::IntegerOverflow)
                } else {
                    Ok(magnitude as i64)
                }
            }
        },
    }
}

/// The length that `bytes[start..end]` denotes as a byte-string length token.
fn length_value(bytes: &[u8], start: usize, end: usize) -> (length: Result<usize, BencodeError>)
    requires
        start <= end <= bytes@.len(),
    ensures
        length matches Ok(v) ==> length_text(bytes@.subrange(start as int, end as int)) == Ok::<
            int,
            BencodeError,
        >(v as int),
        length matches Err(e) ==> length_text(bytes@.subrange(start as int, end as int)) == Err::<
            int,
            BencodeError,
        >(e),
{
    if end - start > 1 && bytes[start] == 48 {
        return Err(BencodeError::LengthLeadingZero);
    }
    if end == start || !all_digits_in(bytes, start, end) {
        return Err(BencodeError::InvalidLength);
    }
    match digits_value_in(bytes, start, end) {
        None => Err(BencodeError::InvalidLength),
        Some(v) => {
            if v > usize::MAX as u64 {
                Err(BencodeError::InvalidLength)
            } else {
                Ok(v as usize)
            }
        },
    }
}

/// A bencode reader over a byte slice.
pub struct Parser<'a> {
    pub bytes: &'a [u8],
    pub position: usize,
}

impl<'a> Parser<'a> {
    pub fn new(bytes: &'a [u8]) -> (parser: Parser<'a>)
        ensures
            parser.bytes == bytes,
            parser.position == 0,
    {
        Parser { bytes, position: 0 }
    }

    /// Reads the value at the current position, nested `depth` deep.
    pub fn parse_node(&mut self, depth: usize) -> (node: Result<Node<'a>, BencodeError>)
        requires
            old(self).position <= old(self).bytes@.len(),
            depth <= MAX_BENCODE_DEPTH + 1,
        ensures
            final(self).bytes == old(self).bytes,
            node matches Ok(n) ==> {
                &&& parse_node(old(self).bytes@, old(self).position as int, depth as int) == Ok::<
                    BNode,
                    BencodeError,
                >(node_model(n))
                &&& final(self).position == n.end
                &&& old(self).position < n.end <= old(self).bytes@.len()
            },
            node matches Err(e) ==> parse_node(
                old(self).bytes@,
                old(self).position as int,
                depth as int,
            ) == Err::<BNode, BencodeError>(e),
        decreases old(self).bytes@.len() - old(self).position, 0int,
    {
        if depth > MAX_BENCODE_DEPTH {
            return Err(BencodeError::TooDeep);
        }
        let start = self.position;
        if start >= self.bytes.len() {
            return Err(BencodeError::UnexpectedEnd);
        }
        let marker = self.bytes[start];
        if marker == 105 {
            self.parse_integer()
        } else if marker == 108 {
            self.position = start + 1;
            match self.parse_list(depth) {
                Ok(items) => Ok(Node { value: Value::List(items), start, end: self.position }),
                Err(e) => Err(e),
            }
        } else if marker == 100 {
            self.position = start + 1;
            match self.parse_dictionary(depth) {
                Ok(entries) => Ok(
                    Node { value: Value::Dictionary(entries), start, end: self.position },
                ),
                Err(e) => Err(e),
            }
        } else if 48 <= marker && marker <= 57 {
            self.parse_bytes()
        } else {
            Err(BencodeError::InvalidMarker)
        }
    }

    fn parse_integer(&mut self) -> (node: Result<Node<'a>, BencodeError>)
        requires
            old(self).position < old(self).bytes@.len(),
            old(self).bytes@[old(self).position as int] == 105,
        ensures
            final(self).bytes == old(self).bytes,
            node matches Ok(n) ==> {
                &&& parse_integer_at(old(self).bytes@, old(self).position as int) == Ok::<
                    BNode,
                    BencodeError,
                >(node_model(n))
                &&& final(self).position == n.end
                &&& old(self).position < n.end <= old(self).bytes@.len()
            },
            node matches Err(e) ==> parse_integer_at(old(self).bytes@, old(self).position as int)
                == Err::<BNode, BencodeError>(e),
    {
        let start = self.position;
        let len = self.bytes.len();
        let relative = find_byte_in(self.bytes, start + 1, len, 101);
        if relative == len - (start + 1) {
            return Err(BencodeError::Unterminated);
        }
        let end = start + 1 + relative;
        match integer_value(self.bytes, start + 1, end) {
            Ok(v) => {
                self.position = end + 1;
                Ok(Node { value: Value::Integer(v), start, end: end + 1 })
            },
            Err(e) => Err(e),
        }
    }

    fn parse_bytes(&mut self) -> (node: Result<Node<'a>, BencodeError>)
        requires
            old(self).position < old(self).bytes@.len(),
            48 <= old(self).bytes@[old(self).position as int] <= 57,
        ensures
            final(self).bytes == old(self).bytes,
            node matches Ok(n) ==> {
                &&& parse_bytes_at(old(self).bytes@, old(self).position as int) == Ok::<
                    BNode,
                    BencodeError,
                >(node_model(n))
                &&& final(self).position == n.end
                &&& old(self).position < n.end <= old(self).bytes@.len()
            },
            node matches Err(e) ==> parse_bytes_at(old(self).bytes@, old(self).position as int)
                == Err::<BNode, BencodeError>(e),
    {
        let start = self.position;
        let len = self.bytes.len();
        let relative = find_byte_in(self.bytes, start, len, 58);
        if relative == len - start {
            return Err(BencodeError::Unterminated);
        }
        let colon = start + relative;
        let length = match length_value(self.bytes, start, colon) {
            Ok(length) => length,
            Err(e) => {
                return Err(e);
            },
        };
        let data_start = colon + 1;
        let data_end = match data_start.checked_add(length) {
            Some(data_end) => data_end,
            None => {
                return Err(BencodeError::LengthOverflow);
            },
        };
        if data_end > len {
            return Err(BencodeError::PastEnd);
        }
        self.position = data_end;
        let data = &self.bytes[data_start..data_end];
        Ok(Node { value: Value::Bytes(data), start, end: data_end })
    }

    fn parse_list(&mut self, depth: usize) -> (items: Result<Vec<Node<'a>>, BencodeError>)
        requires
            old(self).position <= old(self).bytes@.len(),
            depth <= MAX_BENCODE_DEPTH,
        ensures
            final(self).bytes == old(self).bytes,
            items matches Ok(v) ==> {
                &&& parse_list_items(old(self).bytes@, old(self).position as int, depth as int)
                    == Ok::<(Seq<BNode>, int), BencodeError>(
                    (list_model(v@, v@.len() as int), final(self).position as int),
                )
                &&& old(self).position < final(self).position <= old(self).bytes@.len()
            },
            items matches Err(e) ==> parse_list_items(
                old(self).bytes@,
                old(self).position as int,
                depth as int,
            ) == Err::<(Seq<BNode>, int), BencodeError>(e),
        decreases old(self).bytes@.len() - old(self).position, 1int,
    {
        let ghost b = self.bytes@;
        let ghost first = self.position as int;
        let mut items: Vec<Node<'a>> = Vec::new();
        loop
            invariant
                self.bytes@ == b,
                first <= self.position <= b.len(),
                b.len() == old(self).bytes@.len(),
                first == old(self).position,
                self.bytes == old(self).bytes,
                depth <= MAX_BENCODE_DEPTH,
                parse_list_items(b, first, depth as int) == match parse_list_items(
                    b,
                    self.position as int,
                    depth as int,
                ) {
                    Ok((rest, end)) => Ok((list_model(items@, items@.len() as int) + rest, end)),
                    Err(err) => Err(err),
                },
            decreases b.len() - self.position,
        {
            let pos = self.position;
            if pos < self.bytes.len() && self.bytes[pos] == 101 {
                self.position = pos + 1;
                assert(list_model(items@, items@.len() as int) + Seq::<BNode>::empty()
                    =~= list_model(items@, items@.len() as int));
                return Ok(items);
            }
            let item = match self.parse_node(depth + 1) {
                Ok(item) => item,
                Err(e) => {
                    return Err(e);
                },
            };
            proof {
                let m = node_model(item);
                let before = list_model(items@, items@.len() as int);
                lemma_list_model_prefix(items@, item, items@.len() as int);
                assert(list_model(items@.push(item), items@.len() as int + 1) == before.push(m));
                match parse_list_items(b, self.position as int, depth as int) {
                    Ok((rest, end)) => {
                        assert(before + (seq![m] + rest) =~= before.push(m) + rest);
                    },
                    Err(err) => {},
                }
            }
            items.push(item);
        }
    }

    fn parse_dictionary(&mut self, depth: usize) -> (entries: Result<
        Vec<(&'a [u8], Node<'a>)>,
        BencodeError,
    >)
        requires
            old(self).position <= old(self).bytes@.len(),
            depth <= MAX_BENCODE_DEPTH,
        ensures
            final(self).bytes == old(self).bytes,
            entries matches Ok(v) ==> {
                &&& parse_dict_entries(
                    old(self).bytes@,
                    old(self).position as int,
                    depth as int,
                    Seq::empty(),
                ) == Ok::<(Seq<(Seq<u8>, BNode)>, int), BencodeError>(
                    (dict_model(v@, v@.len() as int), final(self).position as int),
                )
                &&& old(self).position < final(self).position <= old(self).bytes@.len()
            },
            entries matches Err(e) ==> parse_dict_entries(
                old(self).bytes@,
                old(self).position as int,
                depth as int,
                Seq::empty(),
            ) == Err::<(Seq<(Seq<u8>, BNode)>, int), BencodeError>(e),
        decreases old(self).bytes@.len() - old(self).position, 1int,
    {
        let ghost b = self.bytes@;
        let ghost first = self.position as int;
        let mut entries: Vec<(&'a [u8], Node<'a>)> = Vec::new();
        assert(entry_keys(dict_model(entries@, 0)) =~= Seq::<Seq<u8>>::empty());
        loop
            invariant
                self.bytes@ == b,
                first <= self.position <= b.len(),
                b.len() == old(self).bytes@.len(),
                first == old(self).position,
                self.bytes == old(self).bytes,
                depth <= MAX_BENCODE_DEPTH,
                parse_dict_entries(b, first, depth as int, Seq::empty()) == match parse_dict_entries(
                    b,
                    self.position as int,
                    depth as int,
                    entry_keys(dict_model(entries@, entries@.len() as int)),
                ) {
                    Ok((rest, end)) => Ok((dict_model(entries@, entries@.len() as int) + rest, end)),
                    Err(err) => Err(err),
                },
            decreases b.len() - self.position,
        {
            let pos = self.position;
            if pos < self.bytes.len() && self.bytes[pos] == 101 {
                self.position = pos + 1;
                assert(dict_model(entries@, entries@.len() as int) + Seq::<
                    (Seq<u8>, BNode),
                >::empty() =~= dict_model(entries@, entries@.len() as int));
                return Ok(entries);
            }
            let key_node = match self.parse_node(depth + 1) {
                Ok(node) => node,
                Err(e) => {
                    return Err(e);
                },
            };
            let ghost seen = entry_keys(dict_model(entries@, entries@.len() as int));
            let key: &'a [u8] = match key_node.value {
                Value::Bytes(key) => key,
                _ => {
                    return Err(BencodeError::KeyNotBytes);
                },
            };
            if contains_key(&entries, key) {
                return Err(BencodeError::DuplicateKey);
            }
            let value = match self.parse_node(depth + 1) {
                Ok(node) => node,
                Err(e) => {
                    return Err(e);
                },
            };
            let ghost old_entries = entries@;
            proof {
                let before = dict_model(old_entries, old_entries.len() as int);
                let entry = (key, value);
                lemma_dict_model_prefix(old_entries, entry, old_entries.len() as int);
                assert(dict_model(old_entries.push(entry), old_entries.len() as int + 1) == before.push(
                    (key@, node_model(value)),
                ));
                assert(entry_keys(before.push((key@, node_model(value)))) =~= seen.push(key@));
                match parse_dict_entries(b, self.position as int, depth as int, seen.push(key@)) {
                    Ok((rest, end)) => {
                        assert(before + (seq![(key@, node_model(value))] + rest) =~= before.push(
                            (key@, node_model(value)),
                        ) + rest);
                    },
                    Err(err) => {},
                }
            }
            entries.push((key, value));
        }
    }
}

/// Whether `key` is among the keys of `entries`.
fn contains_key<'a>(entries: &Vec<(&'a [u8], Node<'a>)>, key: &[u8]) -> (found: bool)
    ensures
        found == entry_keys(dict_model(entries@, entries@.len() as int)).contains(key@),
{
    let ghost seen = entry_keys(dict_model(entries@, entries@.len() as int));
    proof {
        lemma_dict_model_len(entries@, entries@.len() as int);
    }
    let mut i: usize = 0;
    while i < entries.len()
        invariant
            i <= entries@.len(),
            seen == entry_keys(dict_model(entries@, entries@.len() as int)),
            seen.len() == entries@.len(),
            forall|j: int| 0 <= j < i ==> seen[j] != key@,
        decreases entries@.len() - i,
    {
        proof {
            lemma_dict_model_keys(entries@, entries@.len() as int, i as int);
        }
        if bytes_equal(entries[i].0, key) {
            assert(seen[i as int] == key@);
            return true;
        }
        i = i + 1;
    }
    false
}

proof fn lemma_dict_model_len<'a>(v: Seq<(&'a [u8], Node<'a>)>, i: int)
    requires
        0 <= i <= v.len(),
    ensures
        dict_model(v, i).len() == i,
    decreases i,
{
    if i > 0 {
        lemma_dict_model_len(v, i - 1);
    }
}

proof fn lemma_dict_model_keys<'a>(v: Seq<(&'a [u8], Node<'a>)>, i: int, j: int)
    requires
        0 <= j < i <= v.len(),
    ensures
        dict_model(v, i).len() == i,
        dict_model(v, i)[j].0 == v[j].0@,
    decreases i,
{
    lemma_dict_model_len(v, i);
    if j < i - 1 {
        lemma_dict_model_keys(v, i - 1, j);
    }
}


/// A parsed value begins where parsing began.
pub proof fn lemma_node_start(b: Seq<u8>, pos: int, depth: int)
    requires
        parse_node(b, pos, depth) is Ok,
    ensures
        parse_node(b, pos, depth)->Ok_0.start == pos,
        0 <= pos < b.len(),
{
}

/// Every value of a parsed dictionary lies inside the input.
pub proof fn lemma_entries_in_bounds(b: Seq<u8>, pos: int, depth: int, seen: Seq<Seq<u8>>)
    requires
        0 <= pos,
        parse_dict_entries(b, pos, depth, seen) is Ok,
    ensures
        forall|k: int|
            0 <= k < parse_dict_entries(b, pos, depth, seen)->Ok_0.0.len() ==> {
                let v = #[trigger] parse_dict_entries(b, pos, depth, seen)->Ok_0.0[k].1;
                0 <= v.start <= v.end <= b.len()
            },
    decreases b.len() - pos,
{
    if 0 <= pos < b.len() && b[pos] == 101 {
    } else {
        let k = parse_node(b, pos, depth + 1)->Ok_0;
        lemma_node_start(b, pos, depth + 1);
        match k.value {
            BValue::Bytes(key) => {
                let v = parse_node(b, k.end, depth + 1)->Ok_0;
                lemma_node_start(b, k.end, depth + 1);
                lemma_entries_in_bounds(b, v.end, depth, seen.push(key));
                let rest = parse_dict_entries(b, v.end, depth, seen.push(key))->Ok_0.0;
                let all = parse_dict_entries(b, pos, depth, seen)->Ok_0.0;
                assert(all == seq![(key, v)] + rest);
                assert forall|j: int| 0 <= j < all.len() implies {
                    let w = #[trigger] all[j].1;
                    0 <= w.start <= w.end <= b.len()
                } by {
                    if j > 0 {
                        assert(all[j] == rest[j - 1]);
                    }
                }
            },
            _ => {},
        }
    }
}

} // verus!
