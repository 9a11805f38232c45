//! Keys, signatures and digests of the SMD devnet, through the crates that
//! implement them.

use vstd::prelude::*;

use crate::codec::{hex_decode, hex_decoded, hex_encode, hex_lower, sha256, sha256_digest};
use crate::text::ascii_chars;

verus! {

/// The Ed25519 public key of a 32-byte secret key.
pub uninterp spec fn ed25519_public(secret: Seq<u8>) -> Seq<u8>;

/// The Ed25519 signature of a message under a secret key.
pub uninterp spec fn ed25519_signature(secret: Seq<u8>, message: Seq<u8>) -> Seq<u8>;

/// Whether a signature of a message checks under a public key.
pub uninterp spec fn ed25519_valid(public_key: Seq<u8>, signature: Seq<u8>, message: Seq<u8>) -> bool;

/// `SigningKey::from_bytes(..).verifying_key().to_bytes()`: the public key of a secret key.
#[verifier::external_body]
pub(crate) fn ed25519_public_key(secret: &[u8; 32]) -> (public_key: [u8; 32])
    ensures
        public_key@ == ed25519_public(secret@),
{
    ed25519_dalek::SigningKey::from_bytes(secret).verifying_key().to_bytes()
}

/// `SigningKey::sign`: the deterministic Ed25519 signature of a message; it
/// checks under the key's own public key.
#[verifier::external_body]
pub(crate) fn ed25519_sign(secret: &[u8; 32], message: &[u8]) -> (signature: [u8; 64])
    ensures
        signature@ == ed25519_signature(secret@, message@),
        ed25519_valid(ed25519_public(secret@), signature@, message@),
{
    <ed25519_dalek::SigningKey as ed25519_dalek::Signer<ed25519_dalek::Signature>>::sign(
        &ed25519_dalek::SigningKey::from_bytes(secret),
        message,
    ).to_bytes()
}

/// `VerifyingKey::from_bytes` then `verify`: whether the key is a valid point
/// and the signature of the message checks under it.
#[verifier::external_body]
pub(crate) fn ed25519_verify(public_key: &[u8; 32], signature: &[u8; 64], message: &[u8]) -> (valid: bool)
    ensures
        valid == ed25519_valid(public_key@, signature@, message@),
{
    match ed25519_dalek::VerifyingKey::from_bytes(public_key) {
        Ok(key) => <ed25519_dalek::VerifyingKey as ed25519_dalek::Verifier<ed25519_dalek::Signature>>::verify(
            &key,
            message,
            &ed25519_dalek::Signature::from_bytes(signature),
        ).is_ok(),
        Err(_) => false,
    }
}

/// `SigningKey::generate` with the operating system's randomness: a fresh secret key.
#[verifier::external_body]
pub(crate) fn random_secret() -> (secret: [u8; 32]) {
    ed25519_dalek::SigningKey::generate(&mut rand_core::OsRng).to_bytes()
}

/// The domain that prefixes signed transaction bytes.
pub open spec fn transaction_domain() -> Seq<u8> {
    "ShardMeld/SMD/devnet/transaction/v1"@.map_values(|c: char| c as u8).push(0u8)
}

/// The domain that prefixes signed contribution receipt bytes.
pub open spec fn contribution_domain() -> Seq<u8> {
    "ShardMeld/SMD/devnet/contribution-receipt/v1"@.map_values(|c: char| c as u8).push(0u8)
}

/// Which signing domain a message is for.
#[derive(Debug, Clone, Copy, PartialEq, Eq, Structural)]
pub enum SigningDomain {
    Transaction,
    ContributionReceipt,
}

pub open spec fn domain_bytes(domain: SigningDomain) -> Seq<u8> {
    match domain {
        SigningDomain::Transaction => transaction_domain(),
        SigningDomain::ContributionReceipt => contribution_domain(),
    }
}

/// The bytes of a signing domain.
pub fn domain_prefix(domain: SigningDomain) -> (prefix: Vec<u8>)
    ensures
        prefix@ == domain_bytes(domain),
{
    let text = match domain {
        SigningDomain::Transaction => "ShardMeld/SMD/devnet/transaction/v1",
        SigningDomain::ContributionReceipt => "ShardMeld/SMD/devnet/contribution-receipt/v1",
    };
    proof {
        reveal_strlit("ShardMeld/SMD/devnet/transaction/v1");
        reveal_strlit("ShardMeld/SMD/devnet/contribution-receipt/v1");
    }
    let n = text.unicode_len();
    let mut out: Vec<u8> = Vec::new();
    let mut i: usize = 0;
    proof {
        assert(vstd::string::is_ascii(text));
    }
    while i < n
        invariant
            n == text@.len(),
            vstd::string::is_ascii(text),
            i <= n,
            out@ == text@.subrange(0, i as int).map_values(|c: char| c as u8),
        decreases n - i,
    {
        let b = text.get_ascii(i);
        out.push(b);
        assert(text@.subrange(0, i + 1).map_values(|c: char| c as u8) =~= text@.subrange(
            0,
            i as int,
        ).map_values(|c: char| c as u8).push(b));
        i = i + 1;
    }
    out.push(0);
    assert(text@.subrange(0, n as int) =~= text@);
    out
}

/// The message a signature covers: the domain, then the payload.
pub open spec fn domain_message(domain: SigningDomain, payload: Seq<u8>) -> Seq<u8> {
    domain_bytes(domain) + payload
}

/// Signs a payload under a domain; the signature as lower-case hex.
pub fn sign_hex(secret: &[u8; 32], domain: SigningDomain, payload: &[u8]) -> (signature: String)
    ensures
        signature@ == ascii_chars(hex_lower(ed25519_signature(secret@, domain_message(domain, payload@)))),
        ed25519_signature(secret@, domain_message(domain, payload@)).len() == 64,
        ed25519_valid(
            ed25519_public(secret@),
            ed25519_signature(secret@, domain_message(domain, payload@)),
            domain_message(domain, payload@),
        ),
{
    let mut message = domain_prefix(domain);
    crate::bytes::push_slice(&mut message, payload);
    let signature = ed25519_sign(secret, message.as_slice());
    assert(message@ == domain_message(domain, payload@));
    hex_encode(&signature)
}

/// Why a key or signature was refused.
#[derive(Debug, Clone, Copy, PartialEq, Eq, Structural)]
pub enum CryptoError {
    /// Hex text longer than the value allows.
    TooLong,
    /// Text that is not hex.
    Encoding,
    /// Hex of the wrong number of bytes.
    Length,
    /// A signature that does not check.
    BadSignature,
}

/// The `n` bytes that hex text denotes.
pub open spec fn decoded_array(text: Seq<u8>, n: nat) -> Result<Seq<u8>, CryptoError> {
    if text.len() > 2 * n {
        Err(CryptoError::TooLong)
    } else {
        match hex_decoded(text) {
            None => Err(CryptoError::Encoding),
            Some(b) => if b.len() != n {
                Err(CryptoError::Length)
            } else {
                Ok(b)
            },
        }
    }
}

/// Reads a 32-byte value from hex text.
pub fn decode_array32(text: &[u8]) -> (bytes: Result<[u8; 32], CryptoError>)
    ensures
        match bytes {
            Ok(b) => decoded_array(text@, 32) == Ok::<Seq<u8>, CryptoError>(b@),
            Err(e) => decoded_array(text@, 32) == Err::<Seq<u8>, CryptoError>(e),
        },
{
    if text.len() > 64 {
        return Err(CryptoError::TooLong);
    }
    let v = match hex_decode(text) {
        Some(v) => v,
        None => {
            return Err(CryptoError::Encoding);
        },
    };
    if v.len() != 32 {
        return Err(CryptoError::Length);
    }
    let mut out = [0u8; 32];
    let mut i: usize = 0;
    while i < 32
        invariant
            v@.len() == 32,
            i <= 32,
            out@.len() == 32,
            forall|j: int| 0 <= j < i ==> out@[j] == v@[j],
        decreases 32 - i,
    {
        out.set(i, v[i]);
        i = i + 1;
    }
    assert(out@ =~= v@);
    Ok(out)
}

/// Reads a 64-byte value from hex text.
pub fn decode_array64(text: &[u8]) -> (bytes: Result<[u8; 64], CryptoError>)
    ensures
        match bytes {
            Ok(b) => decoded_array(text@, 64) == Ok::<Seq<u8>, CryptoError>(b@),
            Err(e) => decoded_array(text@, 64) == Err::<Seq<u8>, CryptoError>(e),
        },
{
    if text.len() > 128 {
        return Err(CryptoError::TooLong);
    }
    let v = match hex_decode(text) {
        Some(v) => v,
        None => {
            return Err(CryptoError::Encoding);
        },
    };
    if v.len() != 64 {
        return Err(CryptoError::Length);
    }
    let mut out = [0u8; 64];
    let mut i: usize = 0;
    while i < 64
        invariant
            v@.len() == 64,
            i <= 64,
            out@.len() == 64,
            forall|j: int| 0 <= j < i ==> out@[j] == v@[j],
        decreases 64 - i,
    {
        out.set(i, v[i]);
        i = i + 1;
    }
    assert(out@ =~= v@);
    Ok(out)
}

/// What checking a hex signature of a payload under a hex public key gives.
pub open spec fn signature_check(public_key_hex: Seq<u8>, signature_hex: Seq<u8>, domain: SigningDomain, payload: Seq<u8>) -> Result<(), CryptoError> {
    match decoded_array(public_key_hex, 32) {
        Err(e) => Err(e),
        Ok(pk) => match decoded_array(signature_hex, 64) {
            Err(e) => Err(e),
            Ok(sig) => if ed25519_valid(pk, sig, domain_message(domain, payload)) {
                Ok(())
            } else {
                Err(CryptoError::BadSignature)
            },
        },
    }
}

/// Checks a hex signature of a payload under a domain and a hex public key.
pub fn verify_hex(public_key_hex: &[u8], signature_hex: &[u8], domain: SigningDomain, payload: &[u8]) -> (result: Result<(), CryptoError>)
    ensures
        result == signature_check(public_key_hex@, signature_hex@, domain, payload@),
{
    let public_key = match decode_array32(public_key_hex) {
        Ok(k) => k,
        Err(e) => {
            return Err(e);
        },
    };
    let signature = match decode_array64(signature_hex) {
        Ok(s) => s,
        Err(e) => {
            return Err(e);
        },
    };
    let mut message = domain_prefix(domain);
    crate::bytes::push_slice(&mut message, payload);
    if ed25519_verify(&public_key, &signature, message.as_slice()) {
        Ok(())
    } else {
        Err(CryptoError::BadSignature)
    }
}

/// Lower-case hex SHA-256 of data.
pub fn sha256_hex(data: &[u8]) -> (digest: String)
    ensures
        digest@ == ascii_chars(hex_lower(sha256_digest(data@))),
        sha256_digest(data@).len() == 32,
        digest@.len() == 64,
{
    let d = sha256(data);
    hex_encode(&d)
}


/// Hex text is ASCII: its UTF-8 is the hex bytes, two per byte, and they
/// read back as the bytes.
pub proof fn lemma_hex_text(b: Seq<u8>)
    ensures
        vstd::utf8::encode_utf8(ascii_chars(hex_lower(b))) == hex_lower(b),
        hex_lower(b).len() == 2 * b.len(),
        crate::codec::hex_decoded(hex_lower(b)) == Some(b),
{
    let h = hex_lower(b);
    assert forall|i: int| 0 <= i < h.len() implies #[trigger] h[i] < 128 by {
        let v = if i % 2 == 0 { b[i / 2] as int / 16 } else { b[i / 2] as int % 16 };
        assert(0 <= v < 16);
    }
    crate::text::lemma_encode_ascii(h);
    crate::codec::law_hex_round_trip(b);
}

/// Hex of `n` bytes reads back as those bytes.
pub proof fn lemma_decoded_hex(b: Seq<u8>, n: nat)
    requires
        b.len() == n,
    ensures
        decoded_array(vstd::utf8::encode_utf8(ascii_chars(hex_lower(b))), n) == Ok::<Seq<u8>, CryptoError>(b),
{
    let h = hex_lower(b);
    assert forall|i: int| 0 <= i < h.len() implies #[trigger] h[i] < 128 by {
        let v = if i % 2 == 0 { b[i / 2] as int / 16 } else { b[i / 2] as int % 16 };
        assert(0 <= v < 16);
    }
    crate::text::lemma_encode_ascii(h);
    crate::codec::law_hex_round_trip(b);
}

} // verus!
