use vstd::prelude::*;
use vstd::string::StringSliceAdditionalSpecFns;

use crate::address::{address_of_key, network_name, Address, AddressError, NetworkId};
use crate::bytes::{bytes_equal, to_upper, upper_bytes};
use crate::codec::{hex_decode, hex_decoded, hex_lower, sha256_digest};
use crate::crypto::{
    decode_array32, decoded_array, domain_message, ed25519_public, ed25519_signature, ed25519_valid,
    sha256_hex, sign_hex, signature_check, verify_hex, CryptoError, SigningDomain,
};
use crate::json::{json_bool, json_key, json_number, json_string, push_json_bool, push_json_key, push_json_number, push_json_string};
use crate::text::ascii_chars;
use crate::transaction::{member, push_member, utf8};
use crate::wallet::Wallet;

verus! {

/// The kinds of upload service a contribution receipt can attest.
#[derive(Debug, Clone, Copy, PartialEq, Eq, Structural)]
pub enum ServiceType {
    StandardUpload,
    RareDataUpload,
    CdcReconstructionUpload,
}

/// The refusal of a service type name.
#[derive(Debug, Clone, Copy, PartialEq, Eq, Structural)]
pub enum ServiceTypeError {
    Unsupported,
}

/// The protocol name of a service type.
pub open spec fn service_protocol_name(t: ServiceType) -> &'static str {
    match t {
        ServiceType::StandardUpload => "STANDARD_UPLOAD",
        ServiceType::RareDataUpload => "RARE_DATA_UPLOAD",
        ServiceType::CdcReconstructionUpload => "CDC_RECONSTRUCTION_UPLOAD",
    }
}

/// The service type an upper-cased name denotes: the protocol name or its short alias.
pub open spec fn service_type_named(upper: Seq<u8>) -> Option<ServiceType> {
    if upper == "STANDARD_UPLOAD".spec_bytes() || upper == "STANDARD".spec_bytes() {
        Some(ServiceType::StandardUpload)
    } else if upper == "RARE_DATA_UPLOAD".spec_bytes() || upper == "RARE".spec_bytes() {
        Some(ServiceType::RareDataUpload)
    } else if upper == "CDC_RECONSTRUCTION_UPLOAD".spec_bytes() || upper == "CDC".spec_bytes() {
        Some(ServiceType::CdcReconstructionUpload)
    } else {
        None
    }
}

impl ServiceType {
    pub fn protocol_name(self) -> (name: &'static str)
        ensures
            name == service_protocol_name(self),
    {
        match self {
            ServiceType::StandardUpload => "STANDARD_UPLOAD",
            ServiceType::RareDataUpload => "RARE_DATA_UPLOAD",
            ServiceType::CdcReconstructionUpload => "CDC_RECONSTRUCTION_UPLOAD",
        }
    }

    /// Parses a service type name, ignoring ASCII case; the short aliases
    /// `STANDARD`, `RARE` and `CDC` are accepted too.
    pub fn parse(value: &str) -> (parsed: Result<ServiceType, ServiceTypeError>)
        ensures
            parsed is Ok <==> service_type_named(upper_bytes(value.spec_bytes())) is Some,
            parsed matches Ok(t) ==> service_type_named(upper_bytes(value.spec_bytes())) == Some(t),
    {
        let upper = to_upper(value.as_bytes());
        let u = upper.as_slice();
        if bytes_equal(u, "STANDARD_UPLOAD".as_bytes()) || bytes_equal(u, "STANDARD".as_bytes()) {
            Ok(ServiceType::StandardUpload)
        } else if bytes_equal(u, "RARE_DATA_UPLOAD".as_bytes()) || bytes_equal(
            u,
            "RARE".as_bytes(),
        ) {
            Ok(ServiceType::RareDataUpload)
        } else if bytes_equal(u, "CDC_RECONSTRUCTION_UPLOAD".as_bytes()) || bytes_equal(
            u,
            "CDC".as_bytes(),
        ) {
            Ok(ServiceType::CdcReconstructionUpload)
        } else {
            Err(ServiceTypeError::Unsupported)
        }
    }
}

impl core::str::FromStr for ServiceType {
    type Err = ServiceTypeError;

    fn from_str(value: &str) -> (parsed: Result<ServiceType, ServiceTypeError>)
        ensures
            parsed is Ok <==> service_type_named(upper_bytes(value.spec_bytes())) is Some,
            parsed matches Ok(t) ==> service_type_named(upper_bytes(value.spec_bytes())) == Some(t),
            parsed matches Err(e) ==> e == ServiceTypeError::Unsupported,
    {
        ServiceType::parse(value)
    }
}


/// A receiver's signed confirmation that a provider delivered verified data.
#[derive(Debug, Clone, PartialEq, Eq)]
pub struct ContributionReceipt {
    pub version: u32,
    pub network_id: NetworkId,
    pub provider_address: String,
    pub provider_public_key: String,
    pub receiver_address: String,
    pub receiver_public_key: String,
    pub session_id: String,
    pub content_hash: String,
    pub bytes_delivered: u64,
    pub service_type: ServiceType,
    pub epoch: u64,
    pub nonce: u64,
    pub content_verified: bool,
    pub receiver_signature: String,
}

/// Why a contribution receipt was refused.
#[derive(Debug, Clone, Copy, PartialEq, Eq, Structural)]
pub enum ReceiptError {
    /// The provider's and receiver's wallets are on different networks.
    NetworkMismatch,
    /// The provider's or receiver's address could not be encoded.
    Address(AddressError),
    /// A version other than 1, or a network other than the devnet.
    Unsupported,
    /// An empty session id, or one longer than 128 bytes.
    SessionId,
    /// A provider or receiver address longer than 128 bytes.
    AddressTooLong,
    /// No bytes delivered, or content not verified.
    NotVerified,
    /// The provider confirms its own delivery.
    SelfConfirmed,
    /// The content hash is not 64 hex digits.
    ContentHash,
    /// A public key or the signature is not valid hex of the right size, or
    /// the signature does not check.
    Crypto(CryptoError),
    /// An address is not the address of its public key.
    AddressMismatch,
}

/// The fields of a receipt that its signature covers.
pub open spec fn signed_fields(r: ContributionReceipt) -> (u32, NetworkId, Seq<char>, Seq<char>, Seq<char>, Seq<char>, Seq<char>, u64, ServiceType, u64, u64, bool) {
    (
        r.version,
        r.network_id,
        r.provider_address@,
        r.provider_public_key@,
        r.receiver_address@,
        r.session_id@,
        r.content_hash@,
        r.bytes_delivered,
        r.service_type,
        r.epoch,
        r.nonce,
        r.content_verified,
    )
}

/// Compact JSON of the fields a receipt's signature covers.
#[verifier::opaque]
pub open spec fn signed_fields_json(f: (u32, NetworkId, Seq<char>, Seq<char>, Seq<char>, Seq<char>, Seq<char>, u64, ServiceType, u64, u64, bool)) -> Seq<u8> {
    seq![123u8] + json_key("version".spec_bytes()) + json_number(f.0 as nat) + member(
        "network_id",
    ) + json_string(network_name(f.1).spec_bytes()) + member("provider_address")
        + json_string(utf8(f.2)) + member("provider_public_key") + json_string(
        utf8(f.3),
    ) + member("receiver_address") + json_string(utf8(f.4)) + member(
        "session_id",
    ) + json_string(utf8(f.5)) + member("content_hash") + json_string(
        utf8(f.6),
    ) + member("bytes_delivered") + json_number(f.7 as nat) + member("service_type")
        + json_string(service_protocol_name(f.8).spec_bytes()) + member("epoch")
        + json_number(f.9 as nat) + member("nonce") + json_number(f.10 as nat) + member(
        "content_verified",
    ) + json_bool(f.11) + seq![125u8]
}

/// The bytes the receiver's signature covers: compact JSON of the receipt's
/// fields but the receiver's key and signature.
pub open spec fn receipt_signing_bytes(r: ContributionReceipt) -> Seq<u8> {
    signed_fields_json(signed_fields(r))
}

/// Compact JSON of a whole receipt, as stored and hashed.
pub open spec fn receipt_json(r: ContributionReceipt) -> Seq<u8> {
    seq![123u8] + json_key("version".spec_bytes()) + json_number(r.version as nat) + member(
        "network_id",
    ) + json_string(network_name(r.network_id).spec_bytes()) + member("provider_address")
        + json_string(utf8(r.provider_address@)) + member("provider_public_key") + json_string(
        utf8(r.provider_public_key@),
    ) + member("receiver_address") + json_string(utf8(r.receiver_address@)) + member(
        "receiver_public_key",
    ) + json_string(utf8(r.receiver_public_key@)) + member("session_id") + json_string(
        utf8(r.session_id@),
    ) + member("content_hash") + json_string(utf8(r.content_hash@)) + member("bytes_delivered")
        + json_number(r.bytes_delivered as nat) + member("service_type") + json_string(
        service_protocol_name(r.service_type).spec_bytes(),
    ) + member("epoch") + json_number(r.epoch as nat) + member("nonce") + json_number(
        r.nonce as nat,
    ) + member("content_verified") + json_bool(r.content_verified) + member("receiver_signature")
        + json_string(utf8(r.receiver_signature@)) + seq![125u8]
}

/// The address of a hex public key, when it is 32 bytes of hex.
pub open spec fn key_address(network: NetworkId, key_hex: Seq<char>) -> Result<Seq<char>, ReceiptError> {
    match decoded_array(utf8(key_hex), 32) {
        Err(e) => Err(ReceiptError::Crypto(e)),
        Ok(pk) => match address_of_key(network, pk) {
            None => Err(ReceiptError::Address(AddressError::Encoding)),
            Some(a) => Ok(a),
        },
    }
}

/// What checking a receipt gives.
pub open spec fn receipt_check(r: ContributionReceipt) -> Result<(), ReceiptError> {
    if r.version != 1 || r.network_id != NetworkId::Devnet {
        Err(ReceiptError::Unsupported)
    } else if r.session_id@.len() == 0 || utf8(r.session_id@).len() > 128 {
        Err(ReceiptError::SessionId)
    } else if utf8(r.provider_address@).len() > 128 || utf8(r.receiver_address@).len() > 128 {
        Err(ReceiptError::AddressTooLong)
    } else if r.bytes_delivered == 0 || !r.content_verified {
        Err(ReceiptError::NotVerified)
    } else if r.provider_address@ == r.receiver_address@ {
        Err(ReceiptError::SelfConfirmed)
    } else if utf8(r.content_hash@).len() != 64 || hex_decoded(utf8(r.content_hash@)) is None {
        Err(ReceiptError::ContentHash)
    } else {
        match decoded_array(utf8(r.provider_public_key@), 32) {
            Err(e) => Err(ReceiptError::Crypto(e)),
            Ok(_) => match decoded_array(utf8(r.receiver_public_key@), 32) {
                Err(e) => Err(ReceiptError::Crypto(e)),
                Ok(_) => match key_address(r.network_id, r.provider_public_key@) {
                    Err(e) => Err(e),
                    Ok(pa) => if pa != r.provider_address@ {
                        Err(ReceiptError::AddressMismatch)
                    } else {
                        match key_address(r.network_id, r.receiver_public_key@) {
                            Err(e) => Err(e),
                            Ok(ra) => if ra != r.receiver_address@ {
                                Err(ReceiptError::AddressMismatch)
                            } else {
                                match signature_check(
                                    utf8(r.receiver_public_key@),
                                    utf8(r.receiver_signature@),
                                    SigningDomain::ContributionReceipt,
                                    receipt_signing_bytes(r),
                                ) {
                                    Ok(()) => Ok(()),
                                    Err(e) => Err(ReceiptError::Crypto(e)),
                                }
                            },
                        }
                    },
                },
            },
        }
    }
}

impl ContributionReceipt {
    /// A copy of the receipt.
    pub fn duplicate(&self) -> (copy: ContributionReceipt)
        ensures
            copy == *self,
    {
        ContributionReceipt {
            version: self.version,
            network_id: self.network_id,
            provider_address: self.provider_address.clone(),
            provider_public_key: self.provider_public_key.clone(),
            receiver_address: self.receiver_address.clone(),
            receiver_public_key: self.receiver_public_key.clone(),
            session_id: self.session_id.clone(),
            content_hash: self.content_hash.clone(),
            bytes_delivered: self.bytes_delivered,
            service_type: self.service_type,
            epoch: self.epoch,
            nonce: self.nonce,
            content_verified: self.content_verified,
            receiver_signature: self.receiver_signature.clone(),
        }
    }

    /// The bytes the receiver's signature covers.
    pub fn signing_bytes(&self) -> (bytes: Vec<u8>)
        ensures
            bytes@ == receipt_signing_bytes(*self),
    {
        let mut out: Vec<u8> = Vec::new();
        out.push(123);
        push_json_key(&mut out, "version");
        push_json_number(&mut out, self.version as u64);
        push_member(&mut out, "network_id");
        push_json_string(&mut out, self.network_id.as_str());
        push_member(&mut out, "provider_address");
        push_json_string(&mut out, self.provider_address.as_str());
        push_member(&mut out, "provider_public_key");
        push_json_string(&mut out, self.provider_public_key.as_str());
        push_member(&mut out, "receiver_address");
        push_json_string(&mut out, self.receiver_address.as_str());
        push_member(&mut out, "session_id");
        push_json_string(&mut out, self.session_id.as_str());
        push_member(&mut out, "content_hash");
        push_json_string(&mut out, self.content_hash.as_str());
        push_member(&mut out, "bytes_delivered");
        push_json_number(&mut out, self.bytes_delivered);
        push_member(&mut out, "service_type");
        push_json_string(&mut out, self.service_type.protocol_name());
        push_member(&mut out, "epoch");
        push_json_number(&mut out, self.epoch);
        push_member(&mut out, "nonce");
        push_json_number(&mut out, self.nonce);
        push_member(&mut out, "content_verified");
        push_json_bool(&mut out, self.content_verified);
        out.push(125);
        proof {
            reveal(signed_fields_json);
        }
        assert(out@ =~= receipt_signing_bytes(*self));
        out
    }

    /// Compact JSON of the whole receipt.
    pub fn to_json(&self) -> (bytes: Vec<u8>)
        ensures
            bytes@ == receipt_json(*self),
    {
        let mut out: Vec<u8> = Vec::new();
        out.push(123);
        push_json_key(&mut out, "version");
        push_json_number(&mut out, self.version as u64);
        push_member(&mut out, "network_id");
        push_json_string(&mut out, self.network_id.as_str());
        push_member(&mut out, "provider_address");
        push_json_string(&mut out, self.provider_address.as_str());
        push_member(&mut out, "provider_public_key");
        push_json_string(&mut out, self.provider_public_key.as_str());
        push_member(&mut out, "receiver_address");
        push_json_string(&mut out, self.receiver_address.as_str());
        push_member(&mut out, "receiver_public_key");
        push_json_string(&mut out, self.receiver_public_key.as_str());
        push_member(&mut out, "session_id");
        push_json_string(&mut out, self.session_id.as_str());
        push_member(&mut out, "content_hash");
        push_json_string(&mut out, self.content_hash.as_str());
        push_member(&mut out, "bytes_delivered");
        push_json_number(&mut out, self.bytes_delivered);
        push_member(&mut out, "service_type");
        push_json_string(&mut out, self.service_type.protocol_name());
        push_member(&mut out, "epoch");
        push_json_number(&mut out, self.epoch);
        push_member(&mut out, "nonce");
        push_json_number(&mut out, self.nonce);
        push_member(&mut out, "content_verified");
        push_json_bool(&mut out, self.content_verified);
        push_member(&mut out, "receiver_signature");
        push_json_string(&mut out, self.receiver_signature.as_str());
        out.push(125);
        assert(out@ =~= receipt_json(*self));
        out
    }

    /// The receipt's id: lower-case hex SHA-256 of its JSON.
    pub fn id(&self) -> (id: String)
        ensures
            id@ == ascii_chars(hex_lower(sha256_digest(receipt_json(*self)))),
    {
        let json = self.to_json();
        sha256_hex(json.as_slice())
    }

    /// A version 1 receipt, with verified content, that the receiver
    /// signs for the provider's delivery.
    #[verifier::rlimit(60)]
    pub fn confirmed(
        provider: &Wallet,
        receiver: &Wallet,
        session_id: String,
        content_hash: String,
        bytes_delivered: u64,
        service_type: ServiceType,
        epoch: u64,
        nonce: u64,
    ) -> (receipt: Result<ContributionReceipt, ReceiptError>)
        ensures
            provider.network_spec() != receiver.network_spec() ==> receipt == Err::<
                ContributionReceipt,
                ReceiptError,
            >(ReceiptError::NetworkMismatch),
            receipt matches Ok(r) ==> {
                &&& provider.network_spec() == receiver.network_spec()
                &&& r.version == 1
                &&& r.network_id == provider.network_spec()
                &&& address_of_key(r.network_id, ed25519_public(provider.secret_spec())) == Some(r.provider_address@)
                &&& r.provider_public_key@ == ascii_chars(hex_lower(ed25519_public(provider.secret_spec())))
                &&& address_of_key(r.network_id, ed25519_public(receiver.secret_spec())) == Some(r.receiver_address@)
                &&& r.receiver_public_key@ == ascii_chars(hex_lower(ed25519_public(receiver.secret_spec())))
                &&& r.session_id == session_id
                &&& r.content_hash == content_hash
                &&& r.bytes_delivered == bytes_delivered
                &&& r.service_type == service_type
                &&& r.epoch == epoch
                &&& r.nonce == nonce
                &&& r.content_verified
                &&& r.receiver_signature@ == ascii_chars(hex_lower(ed25519_signature(
                    receiver.secret_spec(),
                    domain_message(SigningDomain::ContributionReceipt, receipt_signing_bytes(r)),
                )))
                &&& ed25519_public(provider.secret_spec()).len() == 32
                &&& ed25519_public(receiver.secret_spec()).len() == 32
                &&& ed25519_signature(receiver.secret_spec(), domain_message(SigningDomain::ContributionReceipt, receipt_signing_bytes(r))).len() == 64
                &&& ed25519_valid(
                    ed25519_public(receiver.secret_spec()),
                    ed25519_signature(receiver.secret_spec(), domain_message(SigningDomain::ContributionReceipt, receipt_signing_bytes(r))),
                    domain_message(SigningDomain::ContributionReceipt, receipt_signing_bytes(r)),
                )
            },
            receipt matches Err(e) ==> (e == ReceiptError::NetworkMismatch && provider.network_spec() != receiver.network_spec()) || (e == ReceiptError::Address(
                AddressError::Encoding,
            ) && provider.network_spec() == receiver.network_spec() && (address_of_key(
                provider.network_spec(),
                ed25519_public(provider.secret_spec()),
            ) is None || address_of_key(receiver.network_spec(), ed25519_public(receiver.secret_spec())) is None)),
    {
        if provider.network() != receiver.network() {
            return Err(ReceiptError::NetworkMismatch);
        }
        let provider_address = match provider.address() {
            Ok(a) => a,
            Err(e) => {
                return Err(ReceiptError::Address(e));
            },
        };
        let receiver_address = match receiver.address() {
            Ok(a) => a,
            Err(e) => {
                return Err(ReceiptError::Address(e));
            },
        };
        let mut receipt = ContributionReceipt {
            version: 1,
            network_id: provider.network(),
            provider_address: provider_address.to_text(),
            provider_public_key: provider.public_key_hex(),
            receiver_address: receiver_address.to_text(),
            receiver_public_key: receiver.public_key_hex(),
            session_id,
            content_hash,
            bytes_delivered,
            service_type,
            epoch,
            nonce,
            content_verified: true,
            receiver_signature: String::new(),
        };
        let payload = receipt.signing_bytes();
        let ghost before = receipt;
        receipt.receiver_signature = sign_hex(
            receiver.secret(),
            SigningDomain::ContributionReceipt,
            payload.as_slice(),
        );
        assert(signed_fields(receipt) == signed_fields(before));
        Ok(receipt)
    }

    /// Checks the version and network, the sizes, that delivery was verified
    /// and not self-confirmed, the content hash, that each address is its
    /// key's, and the receiver's signature.
    pub fn verify(&self) -> (result: Result<(), ReceiptError>)
        ensures
            result == receipt_check(*self),
    {
        if self.version != 1 || self.network_id != NetworkId::Devnet {
            return Err(ReceiptError::Unsupported);
        }
        if self.session_id.as_str().is_empty() || self.session_id.as_str().as_bytes().len() > 128 {
            return Err(ReceiptError::SessionId);
        }
        if self.provider_address.as_str().as_bytes().len() > 128
            || self.receiver_address.as_str().as_bytes().len() > 128 {
            return Err(ReceiptError::AddressTooLong);
        }
        if self.bytes_delivered == 0 || !self.content_verified {
            return Err(ReceiptError::NotVerified);
        }
        if self.provider_address == self.receiver_address {
            return Err(ReceiptError::SelfConfirmed);
        }
        let hash_bytes = self.content_hash.as_str().as_bytes();
        if hash_bytes.len() != 64 || hex_decode(hash_bytes).is_none() {
            return Err(ReceiptError::ContentHash);
        }
        let provider_key = match decode_array32(self.provider_public_key.as_str().as_bytes()) {
            Ok(k) => k,
            Err(e) => {
                return Err(ReceiptError::Crypto(e));
            },
        };
        let receiver_key = match decode_array32(self.receiver_public_key.as_str().as_bytes()) {
            Ok(k) => k,
            Err(e) => {
                return Err(ReceiptError::Crypto(e));
            },
        };
        let provider_expected = match Address::from_public_key(self.network_id, &provider_key) {
            Ok(a) => a,
            Err(e) => {
                return Err(ReceiptError::Address(e));
            },
        };
        if provider_expected.to_text() != self.provider_address {
            return Err(ReceiptError::AddressMismatch);
        }
        let receiver_expected = match Address::from_public_key(self.network_id, &receiver_key) {
            Ok(a) => a,
            Err(e) => {
                return Err(ReceiptError::Address(e));
            },
        };
        if receiver_expected.to_text() != self.receiver_address {
            return Err(ReceiptError::AddressMismatch);
        }
        let payload = self.signing_bytes();
        match verify_hex(
            self.receiver_public_key.as_str().as_bytes(),
            self.receiver_signature.as_str().as_bytes(),
            SigningDomain::ContributionReceipt,
            payload.as_slice(),
        ) {
            Ok(()) => Ok(()),
            Err(e) => Err(ReceiptError::Crypto(e)),
        }
    }
}


/// A receipt's JSON stays within the stored size limit when its addresses,
/// keys, session id and content hash take at most 128 UTF-8 bytes and its
/// signature 256.
pub proof fn lemma_receipt_json_len(r: ContributionReceipt)
    requires
        utf8(r.provider_address@).len() <= 128,
        utf8(r.provider_public_key@).len() <= 128,
        utf8(r.receiver_address@).len() <= 128,
        utf8(r.receiver_public_key@).len() <= 128,
        utf8(r.session_id@).len() <= 128,
        utf8(r.content_hash@).len() <= 128,
        utf8(r.receiver_signature@).len() <= 256,
    ensures
        receipt_json(r).len() <= 16_384,
{
    reveal_strlit("version");
    reveal_strlit("network_id");
    reveal_strlit("provider_address");
    reveal_strlit("provider_public_key");
    reveal_strlit("receiver_address");
    reveal_strlit("receiver_public_key");
    reveal_strlit("session_id");
    reveal_strlit("content_hash");
    reveal_strlit("bytes_delivered");
    reveal_strlit("service_type");
    reveal_strlit("epoch");
    reveal_strlit("nonce");
    reveal_strlit("content_verified");
    reveal_strlit("receiver_signature");
    reveal_strlit("STANDARD_UPLOAD");
    reveal_strlit("RARE_DATA_UPLOAD");
    reveal_strlit("CDC_RECONSTRUCTION_UPLOAD");
    reveal_strlit("true");
    reveal_strlit("false");
    crate::json::lemma_text_string_len("version"@);
    crate::transaction::lemma_network_name_len(r.network_id);
    crate::json::lemma_text_string_len(network_name(r.network_id)@);
    crate::json::lemma_text_string_len(service_protocol_name(r.service_type)@);
    crate::json::lemma_utf8_len("true"@);
    crate::json::lemma_utf8_len("false"@);
    crate::transaction::lemma_member_len("network_id");
    crate::transaction::lemma_member_len("provider_address");
    crate::transaction::lemma_member_len("provider_public_key");
    crate::transaction::lemma_member_len("receiver_address");
    crate::transaction::lemma_member_len("receiver_public_key");
    crate::transaction::lemma_member_len("session_id");
    crate::transaction::lemma_member_len("content_hash");
    crate::transaction::lemma_member_len("bytes_delivered");
    crate::transaction::lemma_member_len("service_type");
    crate::transaction::lemma_member_len("epoch");
    crate::transaction::lemma_member_len("nonce");
    crate::transaction::lemma_member_len("content_verified");
    crate::transaction::lemma_member_len("receiver_signature");
    crate::json::lemma_string_len(utf8(r.provider_address@));
    crate::json::lemma_string_len(utf8(r.provider_public_key@));
    crate::json::lemma_string_len(utf8(r.receiver_address@));
    crate::json::lemma_string_len(utf8(r.receiver_public_key@));
    crate::json::lemma_string_len(utf8(r.session_id@));
    crate::json::lemma_string_len(utf8(r.content_hash@));
    crate::json::lemma_string_len(utf8(r.receiver_signature@));
    crate::json::lemma_number_len(r.version as u64);
    crate::json::lemma_number_len(r.bytes_delivered);
    crate::json::lemma_number_len(r.epoch);
    crate::json::lemma_number_len(r.nonce);
}

/// A receipt confirmed by a receiver's key for a provider's key, with
/// distinct addresses, a session id of 1 to 128 bytes, hex of 32 bytes as
/// content hash and short addresses, passes the receipt check.
pub proof fn lemma_confirmed_receipt_checks(r: ContributionReceipt, provider: Seq<u8>, receiver: Seq<u8>, content: Seq<u8>)
    requires
        r.version == 1,
        r.network_id == NetworkId::Devnet,
        address_of_key(r.network_id, ed25519_public(provider)) == Some(r.provider_address@),
        address_of_key(r.network_id, ed25519_public(receiver)) == Some(r.receiver_address@),
        r.provider_public_key@ == ascii_chars(hex_lower(ed25519_public(provider))),
        r.receiver_public_key@ == ascii_chars(hex_lower(ed25519_public(receiver))),
        ed25519_public(provider).len() == 32,
        ed25519_public(receiver).len() == 32,
        r.receiver_signature@ == ascii_chars(hex_lower(ed25519_signature(
            receiver,
            domain_message(SigningDomain::ContributionReceipt, receipt_signing_bytes(r)),
        ))),
        ed25519_signature(receiver, domain_message(SigningDomain::ContributionReceipt, receipt_signing_bytes(r))).len() == 64,
        ed25519_valid(
            ed25519_public(receiver),
            ed25519_signature(receiver, domain_message(SigningDomain::ContributionReceipt, receipt_signing_bytes(r))),
            domain_message(SigningDomain::ContributionReceipt, receipt_signing_bytes(r)),
        ),
        r.session_id@.len() > 0,
        utf8(r.session_id@).len() <= 128,
        utf8(r.provider_address@).len() <= 128,
        utf8(r.receiver_address@).len() <= 128,
        r.bytes_delivered > 0,
        r.content_verified,
        r.provider_address@ != r.receiver_address@,
        r.content_hash@ == ascii_chars(hex_lower(content)),
        content.len() == 32,
    ensures
        receipt_check(r) is Ok,
{
    let sig = ed25519_signature(receiver, domain_message(SigningDomain::ContributionReceipt, receipt_signing_bytes(r)));
    crate::crypto::lemma_decoded_hex(ed25519_public(provider), 32);
    crate::crypto::lemma_decoded_hex(ed25519_public(receiver), 32);
    crate::crypto::lemma_decoded_hex(sig, 64);
    crate::crypto::lemma_hex_text(content);
}
} // verus!
