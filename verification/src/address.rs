//! SMD networks and account addresses: bech32 of the first 20 bytes of the
//! SHA-256 of a public key, or the permanent reserve.

use vstd::prelude::*;
use vstd::string::StringSliceAdditionalSpecFns;

use crate::codec::{sha256, sha256_digest};

verus! {

pub const PERMANENT_RESERVE_ADDRESS: &'static str = "SMD_PERMANENT_RESERVE";

/// An SMD network.
#[derive(Debug, Clone, Copy, PartialEq, Eq, Hash, Structural)]
pub enum NetworkId {
    Mainnet,
    Devnet,
}

/// The name of a network.
pub open spec fn network_name(network: NetworkId) -> &'static str {
    match network {
        NetworkId::Mainnet => "mainnet",
        NetworkId::Devnet => "devnet",
    }
}

/// The bech32 human-readable part of a network's addresses.
pub open spec fn network_hrp(network: NetworkId) -> &'static str {
    match network {
        NetworkId::Mainnet => "smd",
        NetworkId::Devnet => "smddev",
    }
}

/// Why a network or address was refused.
#[derive(Debug, Clone, Copy, PartialEq, Eq, Structural)]
pub enum AddressError {
    /// Not `mainnet` or `devnet`.
    UnsupportedNetwork,
    /// Longer than 128 bytes.
    TooLong,
    /// Not bech32.
    Encoding,
    /// Another network's prefix, or the bech32m variant.
    WrongNetwork,
    /// A payload that is not 20 bytes.
    PayloadLength,
}

impl NetworkId {
    pub fn as_str(self) -> (name: &'static str)
        ensures
            name == network_name(self),
    {
        match self {
            NetworkId::Mainnet => "mainnet",
            NetworkId::Devnet => "devnet",
        }
    }

    pub fn hrp(self) -> (hrp: &'static str)
        ensures
            hrp == network_hrp(self),
    {
        match self {
            NetworkId::Mainnet => "smd",
            NetworkId::Devnet => "smddev",
        }
    }

    /// The network named exactly `mainnet` or `devnet`.
    pub fn parse(value: &str) -> (network: Result<NetworkId, AddressError>)
        ensures
            value@ == "mainnet"@ ==> network == Ok::<NetworkId, AddressError>(NetworkId::Mainnet),
            value@ == "devnet"@ ==> network == Ok::<NetworkId, AddressError>(NetworkId::Devnet),
            (value@ != "mainnet"@ && value@ != "devnet"@) ==> network == Err::<
                NetworkId,
                AddressError,
            >(AddressError::UnsupportedNetwork),
    {
        proof {
            reveal_strlit("mainnet");
            reveal_strlit("devnet");
            assert("mainnet"@.len() != "devnet"@.len());
        }
        let text = String::from_str(value);
        if text == String::from_str("mainnet") {
            Ok(NetworkId::Mainnet)
        } else if text == String::from_str("devnet") {
            Ok(NetworkId::Devnet)
        } else {
            Err(AddressError::UnsupportedNetwork)
        }
    }
}

impl core::str::FromStr for NetworkId {
    type Err = AddressError;

    fn from_str(value: &str) -> (network: Result<NetworkId, AddressError>)
        ensures
            value@ == "mainnet"@ ==> network == Ok::<NetworkId, AddressError>(NetworkId::Mainnet),
            value@ == "devnet"@ ==> network == Ok::<NetworkId, AddressError>(NetworkId::Devnet),
            (value@ != "mainnet"@ && value@ != "devnet"@) ==> network == Err::<
                NetworkId,
                AddressError,
            >(AddressError::UnsupportedNetwork),
    {
        NetworkId::parse(value)
    }
}

/// `ToBase32::to_base32` of bytes: their bits in groups of five, the last
/// group padded with zero bits, each group as a number below 32.
pub uninterp spec fn bech32_groups(data: Seq<u8>) -> Seq<u8>;

/// `bech32::encode` of five-bit groups under a human-readable part with the
/// plain Bech32 variant, when the encoder accepts the part.
pub uninterp spec fn bech32_encoding(hrp: Seq<char>, groups: Seq<u8>) -> Option<Seq<char>>;

/// `bech32::decode` of text: its lower-cased human-readable part, its
/// five-bit groups without the checksum, and whether it is the plain Bech32
/// variant (not Bech32m).
pub uninterp spec fn bech32_decoding(text: Seq<char>) -> Option<(Seq<char>, Seq<u8>, bool)>;

/// `Vec::<u8>::from_base32` of five-bit groups: the bytes they hold, when the
/// padding bits are fewer than five and all zero.
pub uninterp spec fn bech32_bytes(groups: Seq<u8>) -> Option<Seq<u8>>;

/// Whether every value is a five-bit group.
pub open spec fn five_bit(groups: Seq<u8>) -> bool {
    forall|i: int| 0 <= i < groups.len() ==> #[trigger] groups[i] < 32
}

/// Whether `bech32::encode` takes a human-readable part: 1 to 83 characters,
/// each from `!` to `~`, and not both upper- and lower-case letters.
pub open spec fn bech32_hrp_ok(hrp: Seq<char>) -> bool {
    &&& 1 <= hrp.len() <= 83
    &&& forall|i: int| 0 <= i < hrp.len() ==> '!' <= #[trigger] hrp[i] <= '~'
    &&& !((exists|i: int| 0 <= i < hrp.len() && 'a' <= #[trigger] hrp[i] <= 'z') && (exists|j: int|
        0 <= j < hrp.len() && 'A' <= #[trigger] hrp[j] <= 'Z'))
}

/// Whether text has no upper-case letter.
pub open spec fn no_upper(text: Seq<char>) -> bool {
    forall|i: int| 0 <= i < text.len() ==> !('A' <= #[trigger] text[i] <= 'Z')
}

/// `ToBase32::to_base32`: one five-bit group per five bits of data, the last
/// padded with zeros, so that `Vec::<u8>::from_base32` gives the data back.
#[verifier::external_body]
fn bech32_to_base32(data: &[u8]) -> (groups: Vec<u8>)
    ensures
        groups@ == bech32_groups(data@),
        groups@.len() == (8 * data@.len() + 4) / 5,
        five_bit(groups@),
        bech32_bytes(groups@) == Some(data@),
{
    bech32::ToBase32::to_base32(&data).into_iter().map(|g| g.to_u8()).collect()
}

/// `bech32::encode` with the plain Bech32 variant. It fails only on a
/// human-readable part that `check_hrp` refuses; its text is ASCII (one UTF-8
/// byte per character): the lower-cased part, `1`, one character per group
/// and six checksum characters; and `bech32::decode` reads a lower-case part
/// and the groups back, as the plain variant.
#[verifier::external_body]
fn bech32_encode(hrp: &str, groups: &[u8]) -> (text: Option<String>)
    requires
        five_bit(groups@),
    ensures
        match text {
            Some(t) => bech32_encoding(hrp@, groups@) == Some(t@),
            None => bech32_encoding(hrp@, groups@) is None,
        },
        bech32_hrp_ok(hrp@) ==> text is Some,
        text matches Some(t) ==> {
            &&& t@.len() == hrp@.len() + 1 + groups@.len() + 6
            &&& vstd::utf8::encode_utf8(t@).len() == t@.len()
            &&& no_upper(hrp@) ==> bech32_decoding(t@) == Some((hrp@, groups@, true))
        },
{
    let groups: Vec<bech32::u5> = groups.iter().map(|g| bech32::u5::try_from_u8(*g)).collect::<Result<_, _>>().ok()?;
    bech32::encode(hrp, groups, bech32::Variant::Bech32).ok()
}

/// `bech32::decode`; its groups are five-bit values.
#[verifier::external_body]
fn bech32_decode(text: &str) -> (parts: Option<(String, Vec<u8>, bool)>)
    ensures
        match parts {
            Some((hrp, groups, plain)) => bech32_decoding(text@) == Some((hrp@, groups@, plain))
                && five_bit(groups@),
            None => bech32_decoding(text@) is None,
        },
{
    match bech32::decode(text) {
        Ok((hrp, groups, variant)) => Some((
            hrp,
            groups.into_iter().map(|g| g.to_u8()).collect(),
            variant == bech32::Variant::Bech32,
        )),
        Err(_) => None,
    }
}

/// `Vec::<u8>::from_base32` of five-bit groups.
#[verifier::external_body]
fn bech32_from_base32(groups: &[u8]) -> (bytes: Option<Vec<u8>>)
    requires
        five_bit(groups@),
    ensures
        match bytes {
            Some(b) => bech32_bytes(groups@) == Some(b@),
            None => bech32_bytes(groups@) is None,
        },
{
    let groups: Vec<bech32::u5> = groups.iter().map(|g| bech32::u5::try_from_u8(*g)).collect::<Result<_, _>>().ok()?;
    <Vec<u8> as bech32::FromBase32>::from_base32(&groups).ok()
}

/// An SMD account address.
#[derive(Debug, Clone, PartialEq, Eq, Hash)]
pub struct Address(String);

/// The address of a public key on a network.
pub open spec fn address_of_key(network: NetworkId, public_key: Seq<u8>) -> Option<Seq<char>> {
    bech32_encoding(network_hrp(network)@, bech32_groups(sha256_digest(public_key).subrange(0, 20)))
}

/// What checking address text for a network gives.
pub open spec fn address_check(text: Seq<char>, network: NetworkId) -> Result<(), AddressError> {
    if text == PERMANENT_RESERVE_ADDRESS@ {
        Ok(())
    } else if vstd::utf8::encode_utf8(text).len() > 128 {
        Err(AddressError::TooLong)
    } else {
        decoded_check(bech32_decoding(text), network)
    }
}

/// What bech32 decoding's answer makes of address text for a network: the
/// network's prefix, the plain variant and groups holding a 20-byte payload.
pub open spec fn decoded_check(decoded: Option<(Seq<char>, Seq<u8>, bool)>, network: NetworkId) -> Result<
    (),
    AddressError,
> {
    match decoded {
        None => Err(AddressError::Encoding),
        Some((hrp, groups, plain)) => if hrp != network_hrp(network)@ || !plain {
            Err(AddressError::WrongNetwork)
        } else {
            match bech32_bytes(groups) {
                None => Err(AddressError::Encoding),
                Some(p) => if p.len() != 20 {
                    Err(AddressError::PayloadLength)
                } else {
                    Ok(())
                },
            }
        },
    }
}

pub open spec fn decoded_view(parts: Option<(String, Vec<u8>, bool)>) -> Option<(Seq<char>, Seq<u8>, bool)> {
    match parts {
        None => None,
        Some((hrp, groups, plain)) => Some((hrp@, groups@, plain)),
    }
}

/// Checks what bech32 decoding gave for an address of a network: the
/// network's prefix and the plain variant, then the payload the groups hold.
pub fn check_decoded(parts: &Option<(String, Vec<u8>, bool)>, network: NetworkId) -> (result: Result<
    (),
    AddressError,
>)
    requires
        parts matches Some((_, groups, _)) ==> five_bit(groups@),
    ensures
        result == decoded_check(decoded_view(*parts), network),
{
    match parts {
        None => Err(AddressError::Encoding),
        Some((hrp, groups, plain)) => {
            let expected = String::from_str(network.hrp());
            if *hrp != expected || !*plain {
                return Err(AddressError::WrongNetwork);
            }
            match bech32_from_base32(groups.as_slice()) {
                None => Err(AddressError::Encoding),
                Some(p) => if p.len() != 20 {
                    Err(AddressError::PayloadLength)
                } else {
                    Ok(())
                },
            }
        },
    }
}

impl View for Address {
    type V = Seq<char>;

    closed spec fn view(&self) -> Seq<char> {
        self.0@
    }
}

impl Address {
    /// The address of a public key: bech32 of the first 20 bytes of its SHA-256.
    pub fn from_public_key(network: NetworkId, public_key: &[u8; 32]) -> (address: Result<
        Address,
        AddressError,
    >)
        ensures
            sha256_digest(public_key@).len() == 32,
            address is Ok,
            match address {
                Ok(a) => {
                    &&& address_of_key(network, public_key@) == Some(a@)
                    &&& a@.len() == network_hrp(network)@.len() + 39
                    &&& address_check(a@, network) is Ok
                    &&& vstd::utf8::encode_utf8(a@).len() == a@.len()
                    &&& forall|other: NetworkId|
                        other != network ==> #[trigger] address_check(a@, other) == Err::<(), AddressError>(
                            AddressError::WrongNetwork,
                        )
                },
                Err(e) => e == AddressError::Encoding && address_of_key(network, public_key@) is None,
            },
    {
        let digest = sha256(public_key.as_slice());
        let prefix = &digest.as_slice()[0..20];
        let hrp = network.hrp();
        proof {
            reveal_strlit("smd");
            reveal_strlit("smddev");
            reveal_strlit("SMD_PERMANENT_RESERVE");
            assert(bech32_hrp_ok(hrp@));
            assert(no_upper(hrp@));
        }
        let groups = bech32_to_base32(prefix);
        match bech32_encode(hrp, groups.as_slice()) {
            Some(text) => {
                proof {
                    let t = text@;
                    assert(t != PERMANENT_RESERVE_ADDRESS@);
                    assert(prefix@.len() == 20);
                    assert(groups@.len() == 32);
                    assert forall|other: NetworkId| other != network implies #[trigger] address_check(t, other)
                        == Err::<(), AddressError>(AddressError::WrongNetwork) by {
                        assert(network_hrp(other)@ != network_hrp(network)@);
                    }
                }
                Ok(Address(text))
            },
            None => Err(AddressError::Encoding),
        }
    }

    /// Reads an address of a network: the permanent reserve, or bech32 of a
    /// 20-byte payload with the network's prefix.
    pub fn parse_for_network(value: &str, network: NetworkId) -> (address: Result<
        Address,
        AddressError,
    >)
        ensures
            match address {
                Ok(a) => address_check(value@, network) is Ok && a@ == value@,
                Err(e) => address_check(value@, network) == Err::<(), AddressError>(e),
            },
    {
        let text = String::from_str(value);
        if text == String::from_str(PERMANENT_RESERVE_ADDRESS) {
            return Ok(Address(text));
        }
        if value.as_bytes().len() > 128 {
            return Err(AddressError::TooLong);
        }
        assert(value@ != PERMANENT_RESERVE_ADDRESS@);
        assert(value.spec_bytes().len() <= 128);
        let parts = bech32_decode(value);
        match check_decoded(&parts, network) {
            Ok(()) => Ok(Address(text)),
            Err(e) => Err(e),
        }
    }

    /// The permanent reserve.
    pub fn reserve() -> (address: Address)
        ensures
            address@ == PERMANENT_RESERVE_ADDRESS@,
    {
        Address(String::from_str(PERMANENT_RESERVE_ADDRESS))
    }

    pub fn is_reserve(&self) -> (reserve: bool)
        ensures
            reserve == (self@ == PERMANENT_RESERVE_ADDRESS@),
    {
        self.0 == String::from_str(PERMANENT_RESERVE_ADDRESS)
    }

    pub fn as_str(&self) -> (text: &str)
        ensures
            text@ == self@,
    {
        self.0.as_str()
    }

    /// The address text.
    pub fn to_text(&self) -> (text: String)
        ensures
            text@ == self@,
    {
        self.0.clone()
    }

    /// Whether two addresses are the same.
    pub fn same(&self, other: &Address) -> (same: bool)
        ensures
            same == (self@ == other@),
    {
        self.0 == other.0
    }
}

} // verus!
