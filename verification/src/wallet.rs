//! Devnet wallets: a network and a secret key, and their backups.

use vstd::prelude::*;
use vstd::string::StringSliceAdditionalSpecFns;

use crate::address::{address_of_key, network_hrp, Address, AddressError, NetworkId};
use crate::codec::{hex_encode, hex_lower, sha256_digest};
use crate::crypto::{decode_array32, decoded_array, ed25519_public, ed25519_public_key, random_secret, CryptoError};
use crate::text::ascii_chars;

verus! {

pub const DEVNET_WALLET_FILE_KIND: &'static str = "smd-devnet-test-wallet";

pub const MACOS_KEYCHAIN_SERVICE: &'static str = "org.shardmeld.smd.devnet";

/// A wallet: the network it belongs to and its secret key.
pub struct Wallet {
    network: NetworkId,
    secret: [u8; 32],
}

/// The text form of a wallet, holding its secret key as hex.
#[derive(Clone, PartialEq, Eq)]
pub struct WalletBackup {
    pub kind: String,
    pub version: u32,
    pub network_id: NetworkId,
    pub address: String,
    pub private_key_hex: String,
}

/// Why a wallet or backup was refused.
#[derive(Debug, Clone, Copy, PartialEq, Eq, Structural)]
pub enum WalletError {
    /// Another kind or version of backup.
    Format,
    /// A backup for another network than the devnet.
    NotDevnet,
    /// The secret key is not 32 bytes of hex.
    Key(CryptoError),
    /// The address could not be encoded.
    Address(AddressError),
    /// The backup's address is not its key's.
    AddressMismatch,
    /// A keychain name that is not 1 to 128 of `A-Z a-z 0-9 . - _`.
    KeychainName,
}

impl WalletBackup {
    /// A backup from its parts, as read from text.
    pub fn from_parts(kind: String, version: u32, network_id: NetworkId, address: String, private_key_hex: String) -> (backup: WalletBackup)
        ensures
            backup.kind == kind,
            backup.version == version,
            backup.network_id == network_id,
            backup.address == address,
            backup.private_key_hex == private_key_hex,
    {
        WalletBackup { kind, version, network_id, address, private_key_hex }
    }


    /// The secret key as hex, for writing the backup out.
    pub fn private_key_text(&self) -> (text: &str)
        ensures
            text@ == self.private_key_hex@,
    {
        self.private_key_hex.as_str()
    }
}

impl Wallet {
    pub closed spec fn network_spec(&self) -> NetworkId {
        self.network
    }

    pub closed spec fn secret_spec(&self) -> Seq<u8> {
        self.secret@
    }

    /// A wallet with a fresh random secret key.
    pub fn generate(network: NetworkId) -> (wallet: Wallet)
        ensures
            wallet.network_spec() == network,
            wallet.secret_spec().len() == 32,
    {
        Wallet { network, secret: random_secret() }
    }

    /// The wallet of a secret key.
    pub fn from_secret_bytes(network: NetworkId, secret: [u8; 32]) -> (wallet: Wallet)
        ensures
            wallet.network_spec() == network,
            wallet.secret_spec() == secret@,
            wallet.secret_spec().len() == 32,
    {
        Wallet { network, secret }
    }

    pub fn network(&self) -> (network: NetworkId)
        ensures
            network == self.network_spec(),
    {
        self.network
    }

    /// The wallet's public key.
    pub fn public_key(&self) -> (key: [u8; 32])
        ensures
            key@ == ed25519_public(self.secret_spec()),
            ed25519_public(self.secret_spec()).len() == 32,
    {
        ed25519_public_key(&self.secret)
    }

    /// The wallet's address.
    pub fn address(&self) -> (address: Result<Address, AddressError>)
        ensures
            sha256_digest(ed25519_public(self.secret_spec())).len() == 32,
            address is Ok,
            match address {
                Ok(a) => {
                    &&& address_of_key(self.network_spec(), ed25519_public(self.secret_spec())) == Some(a@)
                    &&& a@.len() == network_hrp(self.network_spec())@.len() + 39
                    &&& crate::address::address_check(a@, self.network_spec()) is Ok
                    &&& vstd::utf8::encode_utf8(a@).len() == a@.len()
                    &&& forall|other: NetworkId| other != self.network_spec() ==> #[trigger] crate::address::address_check(a@, other) == Err::<(), AddressError>(AddressError::WrongNetwork)
                },
                Err(e) => e == AddressError::Encoding && address_of_key(
                    self.network_spec(),
                    ed25519_public(self.secret_spec()),
                ) is None,
            },
    {
        let key = self.public_key();
        Address::from_public_key(self.network, &key)
    }

    /// The wallet's public key as lower-case hex.
    pub fn public_key_hex(&self) -> (text: String)
        ensures
            text@ == ascii_chars(hex_lower(ed25519_public(self.secret_spec()))),
            ed25519_public(self.secret_spec()).len() == 32,
    {
        let key = self.public_key();
        hex_encode(&key)
    }

    pub(crate) fn secret(&self) -> (secret: &[u8; 32])
        ensures
            secret@ == self.secret_spec(),
            self.secret_spec().len() == 32,
    {
        &self.secret
    }

    /// The wallet's backup.
    pub fn backup(&self) -> (backup: Result<WalletBackup, AddressError>)
        ensures
            match backup {
                Ok(b) => b.kind@ == DEVNET_WALLET_FILE_KIND@ && b.version == 1 && b.network_id
                    == self.network_spec() && b.private_key_hex@ == ascii_chars(hex_lower(self.secret_spec()))
                    && address_of_key(self.network_spec(), ed25519_public(self.secret_spec())) == Some(b.address@),
                Err(e) => e == AddressError::Encoding && address_of_key(
                    self.network_spec(),
                    ed25519_public(self.secret_spec()),
                ) is None,
            },
    {
        let address = match self.address() {
            Ok(a) => a,
            Err(e) => {
                return Err(e);
            },
        };
        Ok(
            WalletBackup {
                kind: String::from_str(DEVNET_WALLET_FILE_KIND),
                version: 1,
                network_id: self.network,
                address: address.to_text(),
                private_key_hex: hex_encode(&self.secret),
            },
        )
    }

    /// The devnet wallet a backup holds, when its address is its key's.
    pub fn from_backup(backup: WalletBackup) -> (wallet: Result<Wallet, WalletError>)
        ensures
            (backup.kind@ != DEVNET_WALLET_FILE_KIND@ || backup.version != 1) ==> wallet
                == Err::<Wallet, WalletError>(WalletError::Format),
            (backup.kind@ == DEVNET_WALLET_FILE_KIND@ && backup.version == 1 && backup.network_id
                != NetworkId::Devnet) ==> wallet == Err::<Wallet, WalletError>(WalletError::NotDevnet),
            ({
                let key = decoded_array(vstd::utf8::encode_utf8(backup.private_key_hex@), 32);
                let readable = backup.kind@ == DEVNET_WALLET_FILE_KIND@ && backup.version == 1
                    && backup.network_id == NetworkId::Devnet;
                match wallet {
                    Ok(w) => {
                        &&& readable
                        &&& w.network_spec() == NetworkId::Devnet
                        &&& key == Ok::<Seq<u8>, CryptoError>(w.secret_spec())
                        &&& address_of_key(NetworkId::Devnet, ed25519_public(w.secret_spec())) == Some(backup.address@)
                    },
                    Err(WalletError::Key(e)) => readable && key == Err::<Seq<u8>, CryptoError>(e),
                    Err(WalletError::Address(e)) => readable && e == AddressError::Encoding && key is Ok
                        && address_of_key(NetworkId::Devnet, ed25519_public(key->Ok_0)) is None,
                    Err(WalletError::AddressMismatch) => readable && key is Ok && address_of_key(
                        NetworkId::Devnet,
                        ed25519_public(key->Ok_0),
                    ) is Some && address_of_key(NetworkId::Devnet, ed25519_public(key->Ok_0)) != Some(
                        backup.address@,
                    ),
                    Err(WalletError::Format) => !(backup.kind@ == DEVNET_WALLET_FILE_KIND@ && backup.version == 1),
                    Err(WalletError::NotDevnet) => backup.kind@ == DEVNET_WALLET_FILE_KIND@ && backup.version == 1
                        && backup.network_id != NetworkId::Devnet,
                    Err(WalletError::KeychainName) => false,
                }
            }),
    {
        if backup.kind != String::from_str(DEVNET_WALLET_FILE_KIND) || backup.version != 1 {
            return Err(WalletError::Format);
        }
        if backup.network_id != NetworkId::Devnet {
            return Err(WalletError::NotDevnet);
        }
        let secret = match decode_array32(backup.private_key_hex.as_str().as_bytes()) {
            Ok(s) => s,
            Err(e) => {
                return Err(WalletError::Key(e));
            },
        };
        let wallet = Wallet::from_secret_bytes(backup.network_id, secret);
        let address = match wallet.address() {
            Ok(a) => a,
            Err(e) => {
                return Err(WalletError::Address(e));
            },
        };
        if address.to_text() != backup.address {
            return Err(WalletError::AddressMismatch);
        }
        Ok(wallet)
    }
}

/// Whether a byte may appear in a keychain name.
pub open spec fn keychain_name_byte(b: u8) -> bool {
    (48 <= b <= 57) || (65 <= b <= 90) || (97 <= b <= 122) || b == 45 || b == 95 || b == 46
}

/// Checks a keychain wallet name: 1 to 128 bytes of ASCII letters, digits, `.`, `-`, `_`.
pub fn validate_keychain_name(name: &str) -> (result: Result<(), WalletError>)
    ensures
        result is Ok <==> (1 <= name.spec_bytes().len() <= 128 && forall|i: int|
            0 <= i < name.spec_bytes().len() ==> #[trigger] keychain_name_byte(name.spec_bytes()[i])),
        result is Err ==> result == Err::<(), WalletError>(WalletError::KeychainName),
{
    let bytes = name.as_bytes();
    if bytes.len() == 0 || bytes.len() > 128 {
        return Err(WalletError::KeychainName);
    }
    let mut i: usize = 0;
    while i < bytes.len()
        invariant
            bytes@ == name.spec_bytes(),
            i <= bytes@.len(),
            forall|j: int| 0 <= j < i ==> #[trigger] keychain_name_byte(bytes@[j]),
        decreases bytes@.len() - i,
    {
        let b = bytes[i];
        if !((48 <= b && b <= 57) || (65 <= b && b <= 90) || (97 <= b && b <= 122) || b == 45 || b == 95 || b == 46) {
            assert(!keychain_name_byte(bytes@[i as int]));
            return Err(WalletError::KeychainName);
        }
        i = i + 1;
    }
    Ok(())
}

} // verus!
