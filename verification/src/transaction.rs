//! Signed SMD transfers.

use vstd::prelude::*;
use vstd::string::StringSliceAdditionalSpecFns;
use vstd::utf8::encode_utf8;

use crate::address::{address_of_key, network_name, Address, AddressError, NetworkId};
use crate::amount::Amount;
use crate::codec::{hex_lower, law_hex_round_trip, sha256_digest};
use crate::crypto::{
    decode_array32, decoded_array, domain_message, ed25519_public, ed25519_signature, ed25519_valid,
    sha256_hex, sign_hex, signature_check, verify_hex, CryptoError, SigningDomain,
};
use crate::json::{
    json_bool, json_key, json_number, json_string, push_json_key, push_json_number,
    push_json_string,
};
use crate::text::ascii_chars;
use crate::wallet::Wallet;

verus! {

/// A transfer of SMD from one account to another.
#[derive(Debug, Clone, PartialEq, Eq)]
pub struct Transaction {
    pub version: u32,
    pub network_id: NetworkId,
    pub from: String,
    pub from_public_key: String,
    pub to: String,
    pub amount: Amount,
    pub nonce: u64,
    pub created_epoch: u64,
    pub expiry_epoch: u64,
    pub signature: String,
}

/// Why a transaction was refused.
#[derive(Debug, Clone, Copy, PartialEq, Eq, Structural)]
pub enum TransactionError {
    /// A version other than 1.
    Version,
    /// A sender or receiver longer than 128 bytes.
    AddressTooLong,
    /// The sender's public key or the signature is not valid hex of the right size,
    /// or the signature does not check.
    Crypto(CryptoError),
    /// The sender's address could not be encoded.
    Address(AddressError),
    /// The sender is not the address of the public key.
    SenderMismatch,
}

/// The UTF-8 bytes of text.
pub open spec fn utf8(s: Seq<char>) -> Seq<u8> {
    encode_utf8(s)
}

/// `,"name":` — a member separator and key.
pub open spec fn member(name: &str) -> Seq<u8> {
    seq![44u8] + json_key(name.spec_bytes())
}

/// The bytes a transaction's signature covers: compact JSON of its version,
/// network, sender, receiver, atomic amount, nonce and epochs.
pub open spec fn transaction_signing_bytes(t: Transaction) -> Seq<u8> {
    seq![123u8] + json_key("version".spec_bytes()) + json_number(t.version as nat) + member(
        "network_id",
    ) + json_string(network_name(t.network_id).spec_bytes()) + member("from") + json_string(
        utf8(t.from@),
    ) + member("to") + json_string(utf8(t.to@)) + member("amount_atomic") + json_number(
        t.amount.atomic() as nat,
    ) + member("nonce") + json_number(t.nonce as nat) + member("created_epoch") + json_number(
        t.created_epoch as nat,
    ) + member("expiry_epoch") + json_number(t.expiry_epoch as nat) + seq![125u8]
}

/// Compact JSON of a whole transaction, as stored and hashed.
pub open spec fn transaction_json(t: Transaction) -> Seq<u8> {
    seq![123u8] + json_key("version".spec_bytes()) + json_number(t.version as nat) + member(
        "network_id",
    ) + json_string(network_name(t.network_id).spec_bytes()) + member("from") + json_string(
        utf8(t.from@),
    ) + member("from_public_key") + json_string(utf8(t.from_public_key@)) + member("to")
        + json_string(utf8(t.to@)) + member("amount") + json_number(t.amount.atomic() as nat)
        + member("nonce") + json_number(t.nonce as nat) + member("created_epoch") + json_number(
        t.created_epoch as nat,
    ) + member("expiry_epoch") + json_number(t.expiry_epoch as nat) + member("signature")
        + json_string(utf8(t.signature@)) + seq![125u8]
}

/// Appends `,"name":`.
pub fn push_member(out: &mut Vec<u8>, name: &str)
    ensures
        final(out)@ == old(out)@ + member(name),
{
    out.push(44);
    push_json_key(out, name);
    assert(final(out)@ =~= old(out)@ + member(name));
}

/// Whether a transaction's key and signature are a secret key's: its public
/// key, and a signature of the transaction that checks under it.
pub open spec fn signed_by(t: Transaction, secret: Seq<u8>) -> bool {
    let message = domain_message(SigningDomain::Transaction, transaction_signing_bytes(t));
    let public_key = ed25519_public(secret);
    let signature = ed25519_signature(secret, message);
    &&& public_key.len() == 32
    &&& signature.len() == 64
    &&& t.from_public_key@ == ascii_chars(hex_lower(public_key))
    &&& t.signature@ == ascii_chars(hex_lower(signature))
    &&& ed25519_valid(public_key, signature, message)
}

/// What checking a transaction's signature gives.
pub open spec fn transaction_check(t: Transaction) -> Result<(), TransactionError> {
    if t.version != 1 {
        Err(TransactionError::Version)
    } else if utf8(t.from@).len() > 128 || utf8(t.to@).len() > 128 {
        Err(TransactionError::AddressTooLong)
    } else {
        match decoded_array(utf8(t.from_public_key@), 32) {
            Err(e) => Err(TransactionError::Crypto(e)),
            Ok(pk) => match address_of_key(t.network_id, pk) {
                None => Err(TransactionError::Address(AddressError::Encoding)),
                Some(expected) => if expected != t.from@ {
                    Err(TransactionError::SenderMismatch)
                } else {
                    match signature_check(
                        utf8(t.from_public_key@),
                        utf8(t.signature@),
                        SigningDomain::Transaction,
                        transaction_signing_bytes(t),
                    ) {
                        Ok(()) => Ok(()),
                        Err(e) => Err(TransactionError::Crypto(e)),
                    }
                },
            },
        }
    }
}

impl Transaction {
    /// A copy of the transaction.
    pub fn duplicate(&self) -> (copy: Transaction)
        ensures
            copy == *self,
    {
        Transaction {
            version: self.version,
            network_id: self.network_id,
            from: self.from.clone(),
            from_public_key: self.from_public_key.clone(),
            to: self.to.clone(),
            amount: self.amount,
            nonce: self.nonce,
            created_epoch: self.created_epoch,
            expiry_epoch: self.expiry_epoch,
            signature: self.signature.clone(),
        }
    }

    /// The bytes the signature covers.
    pub fn signing_bytes(&self) -> (bytes: Vec<u8>)
        ensures
            bytes@ == transaction_signing_bytes(*self),
    {
        let mut out: Vec<u8> = Vec::new();
        out.push(123);
        push_json_key(&mut out, "version");
        push_json_number(&mut out, self.version as u64);
        push_member(&mut out, "network_id");
        push_json_string(&mut out, self.network_id.as_str());
        push_member(&mut out, "from");
        push_json_string(&mut out, self.from.as_str());
        push_member(&mut out, "to");
        push_json_string(&mut out, self.to.as_str());
        push_member(&mut out, "amount_atomic");
        push_json_number(&mut out, self.amount.atomic());
        push_member(&mut out, "nonce");
        push_json_number(&mut out, self.nonce);
        push_member(&mut out, "created_epoch");
        push_json_number(&mut out, self.created_epoch);
        push_member(&mut out, "expiry_epoch");
        push_json_number(&mut out, self.expiry_epoch);
        out.push(125);
        assert(out@ =~= transaction_signing_bytes(*self));
        out
    }

    /// Compact JSON of the whole transaction.
    pub fn to_json(&self) -> (bytes: Vec<u8>)
        ensures
            bytes@ == transaction_json(*self),
    {
        let mut out: Vec<u8> = Vec::new();
        out.push(123);
        push_json_key(&mut out, "version");
        push_json_number(&mut out, self.version as u64);
        push_member(&mut out, "network_id");
        push_json_string(&mut out, self.network_id.as_str());
        push_member(&mut out, "from");
        push_json_string(&mut out, self.from.as_str());
        push_member(&mut out, "from_public_key");
        push_json_string(&mut out, self.from_public_key.as_str());
        push_member(&mut out, "to");
        push_json_string(&mut out, self.to.as_str());
        push_member(&mut out, "amount");
        push_json_number(&mut out, self.amount.atomic());
        push_member(&mut out, "nonce");
        push_json_number(&mut out, self.nonce);
        push_member(&mut out, "created_epoch");
        push_json_number(&mut out, self.created_epoch);
        push_member(&mut out, "expiry_epoch");
        push_json_number(&mut out, self.expiry_epoch);
        push_member(&mut out, "signature");
        push_json_string(&mut out, self.signature.as_str());
        out.push(125);
        assert(out@ =~= transaction_json(*self));
        out
    }

    /// The transaction's id: lower-case hex SHA-256 of its JSON.
    pub fn id(&self) -> (id: String)
        ensures
            id@ == ascii_chars(hex_lower(sha256_digest(transaction_json(*self)))),
    {
        let json = self.to_json();
        sha256_hex(json.as_slice())
    }

    /// A version 1 transaction from a wallet, signed with its key.
    pub fn signed(
        wallet: &Wallet,
        to: &Address,
        amount: Amount,
        nonce: u64,
        created_epoch: u64,
        expiry_epoch: u64,
    ) -> (transaction: Result<Transaction, AddressError>)
        ensures
            match transaction {
                Ok(t) => {
                    &&& t.version == 1
                    &&& t.network_id == wallet.network_spec()
                    &&& address_of_key(wallet.network_spec(), ed25519_public(wallet.secret_spec())) == Some(t.from@)
                    &&& t.from_public_key@ == ascii_chars(hex_lower(ed25519_public(wallet.secret_spec())))
                    &&& t.to@ == to@
                    &&& t.amount == amount
                    &&& t.nonce == nonce
                    &&& t.created_epoch == created_epoch
                    &&& t.expiry_epoch == expiry_epoch
                    &&& t.signature@ == ascii_chars(
                        hex_lower(
                            ed25519_signature(
                                wallet.secret_spec(),
                                domain_message(SigningDomain::Transaction, transaction_signing_bytes(t)),
                            ),
                        ),
                    )
                    &&& signed_by(t, wallet.secret_spec())
                },
                Err(e) => e == AddressError::Encoding && address_of_key(
                    wallet.network_spec(),
                    ed25519_public(wallet.secret_spec()),
                ) is None,
            },
    {
        let from = match wallet.address() {
            Ok(a) => a,
            Err(e) => {
                return Err(e);
            },
        };
        let mut transaction = Transaction {
            version: 1,
            network_id: wallet.network(),
            from: from.to_text(),
            from_public_key: wallet.public_key_hex(),
            to: to.to_text(),
            amount,
            nonce,
            created_epoch,
            expiry_epoch,
            signature: String::new(),
        };
        let payload = transaction.signing_bytes();
        transaction.signature = sign_hex(wallet.secret(), SigningDomain::Transaction, payload.as_slice());
        assert(transaction_signing_bytes(transaction) == payload@);
        Ok(transaction)
    }

    /// Checks the version, the address sizes, that the sender is the address
    /// of the public key, and the signature.
    pub fn verify_signature(&self) -> (result: Result<(), TransactionError>)
        ensures
            result == transaction_check(*self),
    {
        if self.version != 1 {
            return Err(TransactionError::Version);
        }
        if self.from.as_str().as_bytes().len() > 128 || self.to.as_str().as_bytes().len() > 128 {
            return Err(TransactionError::AddressTooLong);
        }
        let public_key = match decode_array32(self.from_public_key.as_str().as_bytes()) {
            Ok(k) => k,
            Err(e) => {
                return Err(TransactionError::Crypto(e));
            },
        };
        let expected = match Address::from_public_key(self.network_id, &public_key) {
            Ok(a) => a,
            Err(e) => {
                return Err(TransactionError::Address(e));
            },
        };
        if expected.to_text() != self.from {
            return Err(TransactionError::SenderMismatch);
        }
        let payload = self.signing_bytes();
        match verify_hex(
            self.from_public_key.as_str().as_bytes(),
            self.signature.as_str().as_bytes(),
            SigningDomain::Transaction,
            payload.as_slice(),
        ) {
            Ok(()) => Ok(()),
            Err(e) => Err(TransactionError::Crypto(e)),
        }
    }
}


/// A version 1 transaction signed with a secret key, whose sender is the
/// address of that key and whose addresses fit the size limit, passes the
/// signature check.
pub proof fn law_signed_transaction_verifies(t: Transaction, secret: Seq<u8>)
    requires
        t.version == 1,
        signed_by(t, secret),
        address_of_key(t.network_id, ed25519_public(secret)) == Some(t.from@),
        utf8(t.from@).len() <= 128,
        utf8(t.to@).len() <= 128,
    ensures
        transaction_check(t) is Ok,
{
    let message = domain_message(SigningDomain::Transaction, transaction_signing_bytes(t));
    crate::crypto::lemma_decoded_hex(ed25519_public(secret), 32);
    crate::crypto::lemma_decoded_hex(ed25519_signature(secret, message), 64);
}


/// A member key takes at most 24 bytes per character of its name, and its
/// comma, quotes and colon.
pub proof fn lemma_member_len(name: &str)
    ensures
        member(name).len() <= 24 * name@.len() + 4,
{
    crate::json::lemma_text_string_len(name@);
}

/// The network's name takes at most seven characters.
pub proof fn lemma_network_name_len(n: NetworkId)
    ensures
        network_name(n)@.len() <= 7,
{
    reveal_strlit("mainnet");
    reveal_strlit("devnet");
}

/// A transaction's JSON stays within the stored size limit when its
/// addresses and key take at most 128 UTF-8 bytes and its signature 256.
pub proof fn lemma_transaction_json_len(t: Transaction)
    requires
        utf8(t.from@).len() <= 128,
        utf8(t.to@).len() <= 128,
        utf8(t.from_public_key@).len() <= 128,
        utf8(t.signature@).len() <= 256,
    ensures
        transaction_json(t).len() <= 16_384,
{
    reveal_strlit("version");
    reveal_strlit("network_id");
    reveal_strlit("from");
    reveal_strlit("from_public_key");
    reveal_strlit("to");
    reveal_strlit("amount");
    reveal_strlit("nonce");
    reveal_strlit("created_epoch");
    reveal_strlit("expiry_epoch");
    reveal_strlit("signature");
    crate::json::lemma_text_string_len("version"@);
    lemma_network_name_len(t.network_id);
    crate::json::lemma_text_string_len(network_name(t.network_id)@);
    lemma_member_len("network_id");
    lemma_member_len("from");
    lemma_member_len("from_public_key");
    lemma_member_len("to");
    lemma_member_len("amount");
    lemma_member_len("nonce");
    lemma_member_len("created_epoch");
    lemma_member_len("expiry_epoch");
    lemma_member_len("signature");
    crate::json::lemma_string_len(utf8(t.from@));
    crate::json::lemma_string_len(utf8(t.to@));
    crate::json::lemma_string_len(utf8(t.from_public_key@));
    crate::json::lemma_string_len(utf8(t.signature@));
    crate::json::lemma_number_len(t.version as u64);
    crate::json::lemma_number_len(t.amount.atomic());
    crate::json::lemma_number_len(t.nonce);
    crate::json::lemma_number_len(t.created_epoch);
    crate::json::lemma_number_len(t.expiry_epoch);
}
} // verus!
