use shardmeld::address::{check_decoded, Address, AddressError, NetworkId};
use shardmeld::transaction::{Transaction, TransactionError};
use shardmeld::wallet::Wallet;
use shardmeld::Amount;

fn wallet(byte: u8) -> Wallet {
    Wallet::from_secret_bytes(NetworkId::Devnet, [byte; 32])
}

#[test]
fn wallet_addresses_are_stable_and_distinct() {
    let first = Wallet::from_secret_bytes(NetworkId::Devnet, [7; 32]);
    let same = Wallet::from_secret_bytes(NetworkId::Devnet, [7; 32]);
    let second = Wallet::from_secret_bytes(NetworkId::Devnet, [8; 32]);
    assert_eq!(first.address().unwrap(), same.address().unwrap());
    assert_ne!(first.address().unwrap(), second.address().unwrap());
    assert!(first.address().unwrap().as_str().starts_with("smddev1"));
}

#[test]
fn backup_round_trip_preserves_address() {
    let wallet = Wallet::from_secret_bytes(NetworkId::Devnet, [11; 32]);
    let imported = Wallet::from_backup(wallet.backup().unwrap()).unwrap();
    assert_eq!(wallet.address().unwrap(), imported.address().unwrap());
}

#[test]
fn legal_signature_passes_and_modified_signature_fails() {
    let alice = wallet(1);
    let bob = wallet(2);
    let transaction = Transaction::signed(
        &alice,
        &bob.address().unwrap(),
        "1.00000000".parse().unwrap(),
        0,
        1,
        2,
    )
    .unwrap();
    transaction.verify_signature().unwrap();

    let mut altered = transaction;
    altered.amount = "2.00000000".parse().unwrap();
    assert!(altered.verify_signature().is_err());
}

#[test]
fn transaction_checks_name_each_refusal() {
    let alice = wallet(1);
    let bob = wallet(2);
    let transaction =
        Transaction::signed(&alice, &bob.address().unwrap(), Amount::from_atomic(5), 0, 1, 2).unwrap();
    let mut wrong_version = transaction.duplicate();
    wrong_version.version = 2;
    assert_eq!(wrong_version.verify_signature(), Err(TransactionError::Version));
    let mut wrong_sender = transaction.duplicate();
    wrong_sender.from = bob.address().unwrap().to_text();
    assert_eq!(wrong_sender.verify_signature(), Err(TransactionError::SenderMismatch));
    let mut long_receiver = transaction.duplicate();
    long_receiver.to = "x".repeat(129);
    assert_eq!(long_receiver.verify_signature(), Err(TransactionError::AddressTooLong));
    assert_eq!(transaction.id().len(), 64);
    assert_eq!(transaction.id(), transaction.duplicate().id());
}

#[test]
fn addresses_parse_for_their_network_only() {
    let devnet = wallet(3).address().unwrap();
    assert!(Address::parse_for_network(devnet.as_str(), NetworkId::Devnet).is_ok());
    assert!(Address::parse_for_network(devnet.as_str(), NetworkId::Mainnet).is_err());
    assert!(Address::parse_for_network("SMD_PERMANENT_RESERVE", NetworkId::Devnet)
        .unwrap()
        .is_reserve());
    assert!(Address::reserve().is_reserve());
    assert!(!devnet.is_reserve());
    assert_eq!("devnet".parse::<NetworkId>(), Ok(NetworkId::Devnet));
    assert_eq!(NetworkId::Devnet.as_str(), "devnet");
    assert!("moonnet".parse::<NetworkId>().is_err());
}

fn decoded(hrp: &str, groups: Vec<u8>, plain: bool) -> Option<(String, Vec<u8>, bool)> {
    Some((hrp.to_owned(), groups, plain))
}

#[test]
fn decoded_address_parts_need_prefix_variant_and_a_twenty_byte_payload() {
    // 32 five-bit groups hold exactly 160 bits: a 20-byte payload.
    assert_eq!(check_decoded(&decoded("smd", vec![0; 32], true), NetworkId::Mainnet), Ok(()));
    assert_eq!(check_decoded(&decoded("smddev", vec![31; 32], true), NetworkId::Devnet), Ok(()));
    assert_eq!(check_decoded(&None, NetworkId::Mainnet), Err(AddressError::Encoding));
    assert_eq!(check_decoded(&decoded("smd", vec![0; 32], true), NetworkId::Devnet), Err(AddressError::WrongNetwork));
    assert_eq!(check_decoded(&decoded("smd", vec![0; 32], false), NetworkId::Mainnet), Err(AddressError::WrongNetwork));
    // 31 groups hold 19 bytes and three zero padding bits.
    assert_eq!(check_decoded(&decoded("smd", vec![0; 31], true), NetworkId::Mainnet), Err(AddressError::PayloadLength));
    // Two groups hold one byte and two padding bits that are not zero.
    assert_eq!(check_decoded(&decoded("smd", vec![0, 1], true), NetworkId::Mainnet), Err(AddressError::Encoding));
}
