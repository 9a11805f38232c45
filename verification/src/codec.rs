//! Hex text, digests and UTF-8, through the crates that implement them.

use vstd::prelude::*;

use crate::text::ascii_chars;

verus! {

/// The lower-case hex digit of a value below 16.
pub open spec fn hex_digit_lower(v: int) -> u8 {
    if v < 10 {
        (48 + v) as u8
    } else {
        (87 + v) as u8
    }
}

/// Lower-case hex text of bytes: two digits per byte, high nibble first.
pub open spec fn hex_lower(b: Seq<u8>) -> Seq<u8> {
    Seq::new(
        (2 * b.len()) as nat,
        |i: int|
            if i % 2 == 0 {
                hex_digit_lower(b[i / 2] as int / 16)
            } else {
                hex_digit_lower(b[i / 2] as int % 16)
            },
    )
}

/// The value of a hex digit of either case, or -1 for any other byte.
pub open spec fn hex_value(c: u8) -> int {
    if 48 <= c && c <= 57 {
        c - 48
    } else if 97 <= c && c <= 102 {
        c - 87
    } else if 65 <= c && c <= 70 {
        c - 55
    } else {
        -1
    }
}

/// The bytes that hex text of either case denotes, or `None` when its length
/// is odd or a byte is no hex digit.
pub open spec fn hex_decoded(s: Seq<u8>) -> Option<Seq<u8>> {
    if s.len() % 2 != 0 || exists|i: int| 0 <= i < s.len() && #[trigger] hex_value(s[i]) < 0 {
        None
    } else {
        Some(
            Seq::new(
                s.len() / 2,
                |i: int| (hex_value(s[2 * i]) * 16 + hex_value(s[2 * i + 1])) as u8,
            ),
        )
    }
}

/// The SHA-1 digest of a message.
pub uninterp spec fn sha1_digest(message: Seq<u8>) -> Seq<u8>;

/// The SHA-256 digest of a message.
pub uninterp spec fn sha256_digest(message: Seq<u8>) -> Seq<u8>;

/// The BLAKE3 hash of a message.
pub uninterp spec fn blake3_digest(message: Seq<u8>) -> Seq<u8>;

/// `hex::encode`: lower-case hex text, two digits per byte.
#[verifier::external_body]
pub(crate) fn hex_encode(bytes: &[u8]) -> (text: String)
    ensures
        text@ == ascii_chars(hex_lower(bytes@)),
{
    hex::encode(bytes)
}

/// `hex::decode`: the bytes of even-length hex text of either case; `None`
/// when the length is odd or a byte is no hex digit.
#[verifier::external_body]
pub(crate) fn hex_decode(text: &[u8]) -> (bytes: Option<Vec<u8>>)
    ensures
        bytes matches Some(b) ==> hex_decoded(text@) == Some(b@),
        bytes is None ==> hex_decoded(text@) is None,
{
    hex::decode(text).ok()
}

/// `sha1::Sha1::digest`: the 20-byte SHA-1 digest.
#[verifier::external_body]
pub(crate) fn sha1(message: &[u8]) -> (digest: [u8; 20])
    ensures
        digest@ == sha1_digest(message@),
{
    <sha1::Sha1 as sha1::Digest>::digest(message).into()
}

/// `sha2::Sha256::digest`: the 32-byte SHA-256 digest.
#[verifier::external_body]
pub(crate) fn sha256(message: &[u8]) -> (digest: [u8; 32])
    ensures
        digest@ == sha256_digest(message@),
{
    <sha2::Sha256 as sha2::Digest>::digest(message).into()
}

/// `blake3::hash`: the 32-byte BLAKE3 hash.
#[verifier::external_body]
pub(crate) fn blake3(message: &[u8]) -> (digest: [u8; 32])
    ensures
        digest@ == blake3_digest(message@),
{
    *blake3::hash(message).as_bytes()
}

/// `std::str::from_utf8`: the text of valid UTF-8 bytes.
#[verifier::external_body]
pub(crate) fn utf8_str(bytes: &[u8]) -> (text: Option<&str>)
    ensures
        text is Some <==> vstd::utf8::valid_utf8(bytes@),
        text matches Some(s) ==> s@ == vstd::utf8::decode_utf8(bytes@),
{
    std::str::from_utf8(bytes).ok()
}


/// Hex text decodes back to the bytes it was made from.
pub proof fn law_hex_round_trip(b: Seq<u8>)
    ensures
        hex_decoded(hex_lower(b)) == Some(b),
{
    let h = hex_lower(b);
    assert forall|i: int| 0 <= i < h.len() implies #[trigger] hex_value(h[i]) >= 0 by {
        let v = if i % 2 == 0 { b[i / 2] as int / 16 } else { b[i / 2] as int % 16 };
        assert(0 <= v < 16);
    }
    assert(!(exists|i: int| 0 <= i < h.len() && #[trigger] hex_value(h[i]) < 0));
    let d = hex_decoded(h)->Some_0;
    assert forall|i: int| 0 <= i < b.len() implies #[trigger] d[i] == b[i] by {
        let hi = b[i] as int / 16;
        let lo = b[i] as int % 16;
        assert((2 * i) / 2 == i);
        assert((2 * i + 1) / 2 == i);
        assert((2 * i) % 2 == 0);
        assert((2 * i + 1) % 2 == 1);
        assert(hex_value(h[2 * i]) == hi);
        assert(hex_value(h[2 * i + 1]) == lo);
        assert(hi * 16 + lo == b[i]);
    }
    assert(d =~= b);
}

} // verus!
