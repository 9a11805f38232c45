//! Magnet links for BitTorrent v1: the info-hash they name and the trackers
//! they list, bound to locally held metadata.

use vstd::prelude::*;
use vstd::string::StringSliceAdditionalSpecFns;

use crate::bytes::{bytes_equal, push_str_bytes};
use crate::codec::{hex_encode, hex_lower};
use crate::metadata::{copy_strings, strings_view, tiers_view, TorrentModel, TorrentV1};
use crate::text::{ascii_chars, ascii_string};

verus! {

/// A parsed v1 magnet link.
#[derive(Debug, Clone, PartialEq, Eq)]
pub struct MagnetV1 {
    pub info_hash_sha1: String,
    pub display_name: Option<String>,
    pub trackers: Vec<String>,
}

/// Why a magnet link was refused.
#[derive(Debug, Clone, Copy, PartialEq, Eq, Structural)]
pub enum MagnetError {
    /// Not a URL.
    Url,
    /// Not a `magnet:` URL.
    NotMagnet,
    /// A `#` fragment.
    Fragment,
    /// An info-hash that is neither 40 hex nor 32 base32 characters.
    InfoHashLength,
    /// A base32 info-hash with a character outside `A-Z`, `a-z`, `2-7`.
    InfoHashBase32,
    /// Two different v1 info-hashes.
    ConflictingInfoHash,
    /// A tracker that is not a URL.
    TrackerUrl,
    /// A tracker whose scheme is not http, https or udp.
    TrackerScheme,
    /// A tracker URL without a host.
    TrackerHost,
    /// No `xt=urn:btih:` topic.
    NoInfoHash,
    /// The magnet's info-hash differs from the metadata's.
    InfoHashMismatch,
}

/// What the URL parser makes of text: its scheme, whether it has a fragment,
/// whether it has a host, and its decoded query pairs.
pub uninterp spec fn url_parts(text: Seq<char>) -> Option<(Seq<char>, bool, bool, Seq<(Seq<char>, Seq<char>)>)>;

/// The parts of a URL as plain values.
pub struct UrlParts {
    pub scheme: String,
    pub has_fragment: bool,
    pub has_host: bool,
    pub query_pairs: Vec<(String, String)>,
}

pub open spec fn pairs_view(v: Seq<(String, String)>) -> Seq<(Seq<char>, Seq<char>)> {
    v.map_values(|p: (String, String)| (p.0@, p.1@))
}

/// `url::Url::parse`, with the scheme, fragment, host and query pairs that
/// the parsed URL reports.
#[verifier::external_body]
fn parse_url(text: &str) -> (parts: Option<UrlParts>)
    ensures
        match parts {
            Some(p) => url_parts(text@) == Some((p.scheme@, p.has_fragment, p.has_host, pairs_view(p.query_pairs@))),
            None => url_parts(text@) is None,
        },
{
    url::Url::parse(text).ok().map(|u| UrlParts {
        scheme: u.scheme().to_owned(),
        has_fragment: u.fragment().is_some(),
        has_host: u.host_str().is_some(),
        query_pairs: u.query_pairs().map(|(k, v)| (k.into_owned(), v.into_owned())).collect(),
    })
}

/// Whether a byte is a hex digit of either case.
pub open spec fn is_hex_byte(b: u8) -> bool {
    (48 <= b <= 57) || (65 <= b <= 70) || (97 <= b <= 102)
}

/// ASCII lower-casing of a byte.
pub open spec fn ascii_lower(b: u8) -> u8 {
    if 65 <= b <= 90 {
        (b + 32) as u8
    } else {
        b
    }
}

/// The value of a base32 character, or -1.
pub open spec fn base32_value(b: u8) -> int {
    if 65 <= b <= 90 {
        b - 65
    } else if 97 <= b <= 122 {
        b - 97
    } else if 50 <= b <= 55 {
        b - 50 + 26
    } else {
        -1
    }
}

/// Base32 decoding: each character adds five bits; every full byte is
/// taken off the top. Returns the bytes, the leftover bit count and bits.
pub open spec fn base32_bits(s: Seq<u8>) -> (Seq<u8>, nat, nat)
    decreases s.len(),
{
    if s.len() == 0 {
        (Seq::empty(), 0, 0)
    } else {
        let (out, bits, acc) = base32_bits(s.drop_last());
        let acc2 = acc * 32 + base32_value(s.last()) as nat;
        let bits2 = bits + 5;
        if bits2 >= 8 {
            let rest = (bits2 - 8) as nat;
            let p = vstd::arithmetic::power2::pow2(rest);
            (out.push((acc2 / p) as u8), rest, acc2 % p)
        } else {
            (out, bits2, acc2)
        }
    }
}

/// The lower-case hex info-hash a `urn:btih:` value denotes.
pub open spec fn btih_of(value: Seq<u8>) -> Result<Seq<u8>, MagnetError> {
    if value.len() == 40 && forall|i: int| 0 <= i < 40 ==> #[trigger] is_hex_byte(value[i]) {
        Ok(value.map_values(|b: u8| ascii_lower(b)))
    } else if value.len() != 32 {
        Err(MagnetError::InfoHashLength)
    } else if exists|i: int| 0 <= i < 32 && #[trigger] base32_value(value[i]) < 0 {
        Err(MagnetError::InfoHashBase32)
    } else {
        Ok(hex_lower(base32_bits(value).0))
    }
}

proof fn lemma_base32_step(s: Seq<u8>, b: u8)
    ensures
        base32_bits(s.push(b)) == ({
            let (out, bits, acc) = base32_bits(s);
            let acc2 = acc * 32 + base32_value(b) as nat;
            let bits2 = bits + 5;
            if bits2 >= 8 {
                let rest = (bits2 - 8) as nat;
                let p = vstd::arithmetic::power2::pow2(rest);
                (out.push((acc2 / p) as u8), rest, acc2 % p)
            } else {
                (out, bits2, acc2)
            }
        }),
{
    assert(s.push(b).drop_last() =~= s);
}

proof fn lemma_base32_invariant(s: Seq<u8>)
    requires
        forall|i: int| 0 <= i < s.len() ==> base32_value(#[trigger] s[i]) >= 0,
    ensures
        base32_bits(s).1 < 8,
        base32_bits(s).2 < vstd::arithmetic::power2::pow2(base32_bits(s).1),
        base32_bits(s).0.len() == (5 * s.len()) / 8,
        (5 * s.len()) % 8 == base32_bits(s).1,
    decreases s.len(),
{
    vstd::arithmetic::power2::lemma2_to64();
    if s.len() > 0 {
        let t = s.drop_last();
        assert forall|i: int| 0 <= i < t.len() implies base32_value(#[trigger] t[i]) >= 0 by {
            assert(t[i] == s[i]);
        }
        lemma_base32_invariant(t);
        let (out, bits, acc) = base32_bits(t);
        let v = base32_value(s.last());
        assert(0 <= v < 32);
        let acc2 = acc * 32 + v as nat;
        let bits2 = bits + 5;
        assert(acc2 < vstd::arithmetic::power2::pow2(bits2)) by {
            vstd::arithmetic::power2::lemma_pow2_adds(bits, 5);
            assert(acc * 32 + v < vstd::arithmetic::power2::pow2(bits) * 32) by (nonlinear_arith)
                requires
                    acc < vstd::arithmetic::power2::pow2(bits),
                    0 <= v < 32,
            ;
        }
        if bits2 >= 8 {
            let rest = (bits2 - 8) as nat;
            let p = vstd::arithmetic::power2::pow2(rest);
            vstd::arithmetic::power2::lemma_pow2_adds(rest, 8);
            assert(acc2 / p < 256) by (nonlinear_arith)
                requires
                    acc2 < p * 256,
                    p > 0,
            ;
            assert(acc2 % p < p) by (nonlinear_arith)
                requires
                    p > 0,
            ;
        }
    }
}

/// Decodes the value of an `xt=urn:btih:` topic to lower-case hex.
pub fn decode_btih(value: &str) -> (hash: Result<String, MagnetError>)
    ensures
        match hash {
            Ok(h) => btih_of(value.spec_bytes()) matches Ok(b) && h@ == ascii_chars(b),
            Err(e) => btih_of(value.spec_bytes()) == Err::<Seq<u8>, MagnetError>(e),
        },
{
    let bytes = value.as_bytes();
    let n = bytes.len();
    if n == 40 {
        let mut all_hex = true;
        let mut i: usize = 0;
        while i < 40
            invariant
                n == 40,
                bytes@.len() == 40,
                i <= 40,
                all_hex == forall|j: int| 0 <= j < i ==> #[trigger] is_hex_byte(bytes@[j]),
            decreases 40 - i,
        {
            let b = bytes[i];
            let h = (48 <= b && b <= 57) || (65 <= b && b <= 70) || (97 <= b && b <= 102);
            if !h {
                assert(!is_hex_byte(bytes@[i as int]));
            }
            all_hex = all_hex && h;
            i = i + 1;
        }
        if all_hex {
            let mut lower: Vec<u8> = Vec::new();
            let mut k: usize = 0;
            while k < 40
                invariant
                    bytes@.len() == 40,
                    forall|j: int| 0 <= j < 40 ==> #[trigger] is_hex_byte(bytes@[j]),
                    k <= 40,
                    lower@ == bytes@.subrange(0, k as int).map_values(|b: u8| ascii_lower(b)),
                decreases 40 - k,
            {
                let b = bytes[k];
                lower.push(if 65 <= b && b <= 90 { b + 32 } else { b });
                assert(bytes@.subrange(0, k + 1).map_values(|b: u8| ascii_lower(b)) =~= bytes@.subrange(
                    0,
                    k as int,
                ).map_values(|b: u8| ascii_lower(b)).push(ascii_lower(b)));
                k = k + 1;
            }
            assert(bytes@.subrange(0, 40) =~= bytes@);
            assert forall|j: int| 0 <= j < lower@.len() implies #[trigger] lower@[j] < 128 by {
                assert(is_hex_byte(bytes@[j]));
            }
            return Ok(ascii_string(lower.as_slice()));
        }
    }
    if n != 32 {
        return Err(MagnetError::InfoHashLength);
    }
    let mut output: Vec<u8> = Vec::new();
    let mut accumulator: u32 = 0;
    let mut bits: u32 = 0;
    let mut i: usize = 0;
    proof {
        vstd::arithmetic::power2::lemma2_to64();
    }
    while i < 32
        invariant
            bytes@ == value.spec_bytes(),
            bytes@.len() == 32,
            n == 32,
            i <= 32,
            forall|j: int| 0 <= j < i ==> base32_value(#[trigger] bytes@[j]) >= 0,
            base32_bits(bytes@.subrange(0, i as int)) == (output@, bits as nat, accumulator as nat),
            bits < 8,
            accumulator < vstd::arithmetic::power2::pow2(bits as nat),
        decreases 32 - i,
    {
        let b = bytes[i];
        let v: u32 = if 65 <= b && b <= 90 {
            (b - 65) as u32
        } else if 97 <= b && b <= 122 {
            (b - 97) as u32
        } else if 50 <= b && b <= 55 {
            (b - 50 + 26) as u32
        } else {
            assert(base32_value(bytes@[i as int]) < 0);
            return Err(MagnetError::InfoHashBase32);
        };
        proof {
            lemma_base32_step(bytes@.subrange(0, i as int), b);
            assert(bytes@.subrange(0, i + 1) =~= bytes@.subrange(0, i as int).push(b));
            lemma_pow2_small(bits as nat);
        }
        let acc2 = accumulator * 32 + v;
        let bits2 = bits + 5;
        if bits2 >= 8 {
            let rest = bits2 - 8;
            let p: u32 = 1u32 << rest;
            proof {
                lemma_shl_pow2_u32(rest);
                lemma_pow2_small(rest as nat);
                assert(acc2 / p < 256) by (nonlinear_arith)
                    requires
                        acc2 < p * 256,
                        p > 0,
                ;
            }
            output.push((acc2 / p) as u8);
            accumulator = acc2 % p;
            bits = rest;
            proof {
                assert(acc2 % p < p) by (nonlinear_arith)
                    requires
                        p > 0,
                ;
            }
        } else {
            accumulator = acc2;
            bits = bits2;
        }
        i = i + 1;
    }
    proof {
        assert(bytes@.subrange(0, 32) =~= bytes@);
        lemma_base32_invariant(bytes@);
        assert(!(exists|k: int| 0 <= k < 32 && #[trigger] base32_value(bytes@[k]) < 0));
    }
    Ok(hex_encode(output.as_slice()))
}

proof fn lemma_pow2_small(k: nat)
    requires
        k < 8,
    ensures
        1 <= vstd::arithmetic::power2::pow2(k) <= 128,
        vstd::arithmetic::power2::pow2(k + 5) == 32 * vstd::arithmetic::power2::pow2(k),
        vstd::arithmetic::power2::pow2(k + 8) == 256 * vstd::arithmetic::power2::pow2(k),
{
    vstd::arithmetic::power2::lemma2_to64();
    if k == 0 {
    } else if k == 1 {
    } else if k == 2 {
    } else if k == 3 {
    } else if k == 4 {
    } else if k == 5 {
    } else if k == 6 {
    } else {
    }
}

proof fn lemma_shl_pow2_u32(s: u32)
    requires
        s < 8,
    ensures
        (1u32 << s) as int == vstd::arithmetic::power2::pow2(s as nat),
{
    vstd::arithmetic::power2::lemma2_to64();
    if s == 0 {
        assert((1u32 << 0u32) == 1) by (bit_vector);
    } else if s == 1 {
        assert((1u32 << 1u32) == 2) by (bit_vector);
    } else if s == 2 {
        assert((1u32 << 2u32) == 4) by (bit_vector);
    } else if s == 3 {
        assert((1u32 << 3u32) == 8) by (bit_vector);
    } else if s == 4 {
        assert((1u32 << 4u32) == 16) by (bit_vector);
    } else if s == 5 {
        assert((1u32 << 5u32) == 32) by (bit_vector);
    } else if s == 6 {
        assert((1u32 << 6u32) == 64) by (bit_vector);
    } else {
        assert((1u32 << 7u32) == 128) by (bit_vector);
    }
}


/// Whether a parsed tracker URL is accepted in a magnet link: an http, https
/// or udp scheme and a host.
pub open spec fn tracker_parts_check(parts: (Seq<char>, bool, bool, Seq<(Seq<char>, Seq<char>)>)) -> Result<
    (),
    MagnetError,
> {
    let (scheme, _, has_host, _) = parts;
    if scheme != "http"@ && scheme != "https"@ && scheme != "udp"@ {
        Err(MagnetError::TrackerScheme)
    } else if !has_host {
        Err(MagnetError::TrackerHost)
    } else {
        Ok(())
    }
}

/// Whether a tracker URL is accepted in a magnet link.
pub open spec fn tracker_check(text: Seq<char>) -> Result<(), MagnetError> {
    match url_parts(text) {
        None => Err(MagnetError::TrackerUrl),
        Some(parts) => tracker_parts_check(parts),
    }
}

/// Checks that a tracker URL parses with an http, https or udp scheme and a host.
pub fn validate_tracker(value: &str) -> (result: Result<(), MagnetError>)
    ensures
        result == tracker_check(value@),
{
    match parse_url(value) {
        Some(parts) => check_tracker_parts(&parts),
        None => Err(MagnetError::TrackerUrl),
    }
}

/// Checks a parsed tracker URL: an http, https or udp scheme and a host.
pub fn check_tracker_parts(parts: &UrlParts) -> (result: Result<(), MagnetError>)
    ensures
        result == tracker_parts_check(parts_view(*parts)),
{
    if parts.scheme != String::from_str("http") && parts.scheme != String::from_str("https")
        && parts.scheme != String::from_str("udp") {
        return Err(MagnetError::TrackerScheme);
    }
    if !parts.has_host {
        return Err(MagnetError::TrackerHost);
    }
    Ok(())
}

/// What a magnet link says so far: its info-hash, display name and trackers.
pub type MagnetSoFar = (Option<Seq<char>>, Option<Seq<char>>, Seq<Seq<char>>);

/// The info-hash an `xt` value names, if it is a v1 topic.
pub open spec fn btih_topic(value: Seq<char>) -> Option<Result<Seq<char>, MagnetError>> {
    if value.len() >= 9 && value.subrange(0, 9) == "urn:btih:"@ {
        Some(
            match btih_of(vstd::utf8::encode_utf8(value.subrange(9, value.len() as int))) {
                Ok(b) => Ok(ascii_chars(b)),
                Err(e) => Err(e),
            },
        )
    } else {
        None
    }
}

/// The magnet after its first `k` query pairs.
pub open spec fn magnet_pairs(pairs: Seq<(Seq<char>, Seq<char>)>, k: int) -> Result<MagnetSoFar, MagnetError>
    decreases k,
{
    if k <= 0 {
        Ok((None, None, Seq::empty()))
    } else {
        match magnet_pairs(pairs, k - 1) {
            Err(e) => Err(e),
            Ok((hash, name, trackers)) => {
                let (key, value) = pairs[k - 1];
                if key == "xt"@ {
                    match btih_topic(value) {
                        None => Ok((hash, name, trackers)),
                        Some(Err(e)) => Err(e),
                        Some(Ok(h)) => if hash is Some && hash != Some(h) {
                            Err(MagnetError::ConflictingInfoHash)
                        } else {
                            Ok((Some(h), name, trackers))
                        },
                    }
                } else if key == "dn"@ && name is None {
                    Ok((hash, Some(value), trackers))
                } else if key == "tr"@ {
                    match tracker_check(value) {
                        Err(e) => Err(e),
                        Ok(()) => if trackers.contains(value) {
                            Ok((hash, name, trackers))
                        } else {
                            Ok((hash, name, trackers.push(value)))
                        },
                    }
                } else {
                    Ok((hash, name, trackers))
                }
            },
        }
    }
}

pub struct MagnetModel {
    pub info_hash_sha1: Seq<char>,
    pub display_name: Option<Seq<char>>,
    pub trackers: Seq<Seq<char>>,
}

impl View for MagnetV1 {
    type V = MagnetModel;

    open spec fn view(&self) -> MagnetModel {
        MagnetModel {
            info_hash_sha1: self.info_hash_sha1@,
            display_name: match self.display_name {
                Some(d) => Some(d@),
                None => None,
            },
            trackers: strings_view(self.trackers@),
        }
    }
}

/// The v1 magnet link that text denotes.
/// A URL's parts as plain values: scheme, whether it has a fragment, whether
/// it has a host, and its query pairs.
pub open spec fn parts_view(p: UrlParts) -> (Seq<char>, bool, bool, Seq<(Seq<char>, Seq<char>)>) {
    (p.scheme@, p.has_fragment, p.has_host, pairs_view(p.query_pairs@))
}

/// What a parsed URL says as a v1 magnet link.
pub open spec fn magnet_from(parts: (Seq<char>, bool, bool, Seq<(Seq<char>, Seq<char>)>)) -> Result<
    MagnetModel,
    MagnetError,
> {
    let (scheme, fragment, _, pairs) = parts;
    if scheme != "magnet"@ {
        Err(MagnetError::NotMagnet)
    } else if fragment {
        Err(MagnetError::Fragment)
    } else {
        match magnet_pairs(pairs, pairs.len() as int) {
            Err(e) => Err(e),
            Ok((hash, name, trackers)) => match hash {
                None => Err(MagnetError::NoInfoHash),
                Some(h) => Ok(MagnetModel { info_hash_sha1: h, display_name: name, trackers }),
            },
        }
    }
}

pub open spec fn magnet_of(text: Seq<char>) -> Result<MagnetModel, MagnetError> {
    match url_parts(text) {
        None => Err(MagnetError::Url),
        Some(parts) => magnet_from(parts),
    }
}

/// The v1 info-hash of an `xt` value, if it is a `urn:btih:` topic.
fn btih_of_topic(value: &String) -> (hash: Option<Result<String, MagnetError>>)
    ensures
        match hash {
            None => btih_topic(value@) is None,
            Some(Ok(h)) => btih_topic(value@) == Some(Ok::<Seq<char>, MagnetError>(h@)),
            Some(Err(e)) => btih_topic(value@) == Some(Err::<Seq<char>, MagnetError>(e)),
        },
{
    let text = value.as_str();
    let n = text.unicode_len();
    if n < 9 {
        return None;
    }
    let prefix = text.substring_char(0, 9);
    if String::from_str(prefix) != String::from_str("urn:btih:") {
        return None;
    }
    let encoded = text.substring_char(9, n);
    match decode_btih(encoded) {
        Ok(h) => Some(Ok(h)),
        Err(e) => Some(Err(e)),
    }
}

/// Reads a v1 magnet link: its `urn:btih:` info-hash (40 hex or 32 base32
/// characters, one value only), the first display name, and each tracker
/// once, in order.
pub fn parse_v1_magnet(value: &str) -> (magnet: Result<MagnetV1, MagnetError>)
    ensures
        match magnet {
            Ok(m) => magnet_of(value@) == Ok::<MagnetModel, MagnetError>(m@),
            Err(e) => magnet_of(value@) == Err::<MagnetModel, MagnetError>(e),
        },
{
    match parse_url(value) {
        Some(parts) => magnet_from_parts(&parts),
        None => Err(MagnetError::Url),
    }
}

/// Reads a parsed URL as a v1 magnet link: the scheme must be `magnet` with
/// no fragment; then the query pairs give the info-hash, the first display
/// name and the trackers.
pub fn magnet_from_parts(parts: &UrlParts) -> (magnet: Result<MagnetV1, MagnetError>)
    ensures
        match magnet {
            Ok(m) => magnet_from(parts_view(*parts)) == Ok::<MagnetModel, MagnetError>(m@),
            Err(e) => magnet_from(parts_view(*parts)) == Err::<MagnetModel, MagnetError>(e),
        },
{
    if parts.scheme != String::from_str("magnet") {
        return Err(MagnetError::NotMagnet);
    }
    if parts.has_fragment {
        return Err(MagnetError::Fragment);
    }
    let ghost pairs = pairs_view(parts.query_pairs@);
    let mut info_hash: Option<String> = None;
    let mut display_name: Option<String> = None;
    let mut trackers: Vec<String> = Vec::new();
    assert(strings_view(trackers@) =~= Seq::<Seq<char>>::empty());
    let mut k: usize = 0;
    while k < parts.query_pairs.len()
        invariant
            pairs == pairs_view(parts.query_pairs@),
            parts.scheme@ == "magnet"@,
            !parts.has_fragment,
            k <= pairs.len(),
            magnet_pairs(pairs, k as int) == Ok::<MagnetSoFar, MagnetError>(
                (
                    match info_hash {
                        Some(h) => Some(h@),
                        None => None,
                    },
                    match display_name {
                        Some(d) => Some(d@),
                        None => None,
                    },
                    strings_view(trackers@),
                ),
            ),
        decreases pairs.len() - k,
    {
        let key = &parts.query_pairs[k].0;
        let item = &parts.query_pairs[k].1;
        assert(pairs[k as int] == (key@, item@));
        if *key == String::from_str("xt") {
            match btih_of_topic(item) {
                None => {},
                Some(Err(e)) => {
                    proof {
                        lemma_magnet_pairs_err(pairs, k as int + 1, pairs.len() as int);
                    }
                    return Err(e);
                },
                Some(Ok(h)) => {
                    let conflict = match &info_hash {
                        Some(current) => *current != h,
                        None => false,
                    };
                    if conflict {
                        proof {
                            lemma_magnet_pairs_err(pairs, k as int + 1, pairs.len() as int);
                        }
                        return Err(MagnetError::ConflictingInfoHash);
                    }
                    info_hash = Some(h);
                },
            }
        } else if *key == String::from_str("dn") && display_name.is_none() {
            display_name = Some(item.clone());
        } else if *key == String::from_str("tr") {
            match validate_tracker(item.as_str()) {
                Ok(()) => {},
                Err(e) => {
                    proof {
                        lemma_magnet_pairs_err(pairs, k as int + 1, pairs.len() as int);
                    }
                    return Err(e);
                },
            }
            if !contains_text(&trackers, item) {
                let ghost before = strings_view(trackers@);
                trackers.push(item.clone());
                assert(strings_view(trackers@) =~= before.push(item@));
            }
        }
        k = k + 1;
    }
    match info_hash {
        Some(h) => Ok(MagnetV1 { info_hash_sha1: h, display_name, trackers }),
        None => Err(MagnetError::NoInfoHash),
    }
}

proof fn lemma_magnet_pairs_err(pairs: Seq<(Seq<char>, Seq<char>)>, k: int, m: int)
    requires
        0 <= k <= m,
        magnet_pairs(pairs, k) is Err,
    ensures
        magnet_pairs(pairs, m) == magnet_pairs(pairs, k),
    decreases m - k,
{
    if m > k {
        lemma_magnet_pairs_err(pairs, k, m - 1);
    }
}

/// Whether `text` is among `items`.
fn contains_text(items: &Vec<String>, text: &String) -> (found: bool)
    ensures
        found == strings_view(items@).contains(text@),
{
    let mut i: usize = 0;
    while i < items.len()
        invariant
            i <= items@.len(),
            forall|j: int| 0 <= j < i ==> items@[j]@ != text@,
        decreases items@.len() - i,
    {
        if items[i] == *text {
            assert(strings_view(items@)[i as int] == text@);
            return true;
        }
        i = i + 1;
    }
    proof {
        if strings_view(items@).contains(text@) {
            let j = choose|j: int| 0 <= j < strings_view(items@).len() && strings_view(items@)[j] == text@;
            assert(items@[j]@ == text@);
        }
    }
    false
}

/// Binds a magnet link to locally held metadata with the same info-hash;
/// the magnet's trackers, when it lists any, replace the metadata's.
pub fn bind_v1_magnet(magnet: &MagnetV1, torrent: &TorrentV1) -> (bound: Result<TorrentV1, MagnetError>)
    ensures
        magnet.info_hash_sha1@ != torrent.info_hash_sha1@ ==> bound == Err::<TorrentV1, MagnetError>(
            MagnetError::InfoHashMismatch,
        ),
        magnet.info_hash_sha1@ == torrent.info_hash_sha1@ ==> (bound matches Ok(b) && if magnet.trackers@.len() == 0 {
            b@ == torrent@
        } else {
            b@ == TorrentModel {
                announce: Some(magnet.trackers@[0]@),
                announce_list: Some(seq![strings_view(magnet.trackers@)]),
                ..torrent@
            }
        }),
{
    if magnet.info_hash_sha1 != torrent.info_hash_sha1 {
        return Err(MagnetError::InfoHashMismatch);
    }
    let mut bound = torrent.duplicate();
    if magnet.trackers.len() > 0 {
        bound.announce = Some(magnet.trackers[0].clone());
        let mut list: Vec<Vec<String>> = Vec::new();
        list.push(copy_strings(&magnet.trackers));
        assert(tiers_view(list@) =~= seq![strings_view(magnet.trackers@)]);
        bound.announce_list = Some(list);
    }
    Ok(bound)
}

} // verus!
