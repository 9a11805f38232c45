use shardmeld::address::{Address, NetworkId};
use shardmeld::consensus::{sort_by_id, DevnetAuthorityConsensus};
use shardmeld::contribution::{ContributionReceipt, ServiceType};
use shardmeld::devnet::run_devnet_scenario;
use shardmeld::ledger::{LedgerBook, LedgerError};
use shardmeld::pricing::{FreeLanePolicy, ProtocolPricingEngine, V01FreeLanePolicy, V01PricingEngine};
use shardmeld::rewards::ScoreError;
use shardmeld::transaction::Transaction;
use shardmeld::wallet::Wallet;
use shardmeld::{genesis_reserve, Amount, AmountError};

fn wallet(byte: u8) -> Wallet {
    Wallet::from_secret_bytes(NetworkId::Devnet, [byte; 32])
}

fn open_ledger() -> LedgerBook {
    LedgerBook::genesis(NetworkId::Devnet).unwrap()
}

#[allow(clippy::too_many_arguments)]
fn receipt(
    provider: &Wallet,
    receiver: &Wallet,
    session: &str,
    content_byte: u8,
    bytes: u64,
    service: ServiceType,
    epoch: u64,
    nonce: u64,
) -> ContributionReceipt {
    ContributionReceipt::confirmed(
        provider,
        receiver,
        session.to_owned(),
        hex::encode([content_byte; 32]),
        bytes,
        service,
        epoch,
        nonce,
    )
    .unwrap()
}

fn reward_provider(ledger: &mut LedgerBook, provider: &Wallet, receiver: &Wallet, epoch: u64) -> Amount {
    let receipt = receipt(
        provider,
        receiver,
        &format!("session-{epoch}"),
        epoch as u8,
        1_073_741_824,
        ServiceType::StandardUpload,
        epoch,
        epoch,
    );
    ledger.submit_contribution(&receipt).unwrap();
    ledger
        .mine_rewards(epoch, &DevnetAuthorityConsensus)
        .unwrap()
        .protocol_subsidy
}

#[test]
fn normal_transfer_nonce_balance_and_reserve_rules_hold() {
    let mut ledger = open_ledger();
    let alice = wallet(3);
    let bob = wallet(4);
    let reward = reward_provider(&mut ledger, &alice, &bob, 1);
    assert!(reward > Amount::zero());

    let transfer_amount: Amount = "3.00000000".parse().unwrap();
    let transfer =
        Transaction::signed(&alice, &bob.address().unwrap(), transfer_amount, 0, 1, 5).unwrap();
    ledger.submit_transaction(&transfer, 1).unwrap();
    assert_eq!(ledger.account(&bob.address().unwrap()).balance, transfer_amount);
    assert_eq!(ledger.account(&alice.address().unwrap()).nonce, 1);

    assert!(ledger.submit_transaction(&transfer, 1).is_err());
    let too_much = Transaction::signed(&bob, &alice.address().unwrap(), reward, 0, 1, 5).unwrap();
    assert!(ledger.submit_transaction(&too_much, 1).is_err());

    let reserve_before = ledger.status().supply.reserve_balance;
    let burn: Amount = "1.00000000".parse().unwrap();
    let to_reserve = Transaction::signed(&bob, &Address::reserve(), burn, 0, 1, 5).unwrap();
    ledger.submit_transaction(&to_reserve, 1).unwrap();
    let status = ledger.status();
    assert_eq!(status.supply.reserve_balance, reserve_before.checked_add(burn).unwrap());
    assert_eq!(
        status.supply.circulating_supply,
        status
            .supply
            .minted_supply
            .checked_sub(status.supply.reserve_balance)
            .unwrap()
    );

    let mut forged_reserve =
        Transaction::signed(&alice, &bob.address().unwrap(), burn, 1, 1, 5).unwrap();
    forged_reserve.from = Address::reserve().to_text();
    assert!(ledger.submit_transaction(&forged_reserve, 1).is_err());
    assert_eq!(ledger.status().supply.reserve_balance, status.supply.reserve_balance);
}

#[test]
fn invalid_and_replayed_contribution_receipts_never_reward() {
    let mut ledger = open_ledger();
    let alice = wallet(5);
    let bob = wallet(6);
    let valid = receipt(&alice, &bob, "unique-session", 7, 10_000_000, ServiceType::RareDataUpload, 2, 0);
    ledger.submit_contribution(&valid).unwrap();
    assert!(ledger.submit_contribution(&valid).is_err());

    let same_session =
        receipt(&alice, &bob, "unique-session", 8, 10_000_000, ServiceType::StandardUpload, 2, 1);
    assert!(ledger.submit_contribution(&same_session).is_err());

    let repeated_nonce = receipt(
        &alice,
        &bob,
        "different-session-same-nonce",
        11,
        10_000_000,
        ServiceType::StandardUpload,
        2,
        0,
    );
    assert!(ledger.submit_contribution(&repeated_nonce).is_err());

    let mut corrupted =
        receipt(&alice, &bob, "corrupt-session", 9, 10_000_000, ServiceType::StandardUpload, 2, 2);
    corrupted.content_verified = false;
    assert!(ledger.submit_contribution(&corrupted).is_err());

    let mut unsigned =
        receipt(&alice, &bob, "unsigned-session", 10, 10_000_000, ServiceType::StandardUpload, 2, 3);
    unsigned.receiver_signature.clear();
    assert!(ledger.submit_contribution(&unsigned).is_err());

    let summary = ledger.mine_rewards(2, &DevnetAuthorityConsensus).unwrap();
    assert_eq!(summary.receipts_processed, 1);
    assert!(summary.protocol_subsidy > Amount::zero());
    assert_eq!(ledger.status().contribution_receipts, 1);
}

#[test]
fn no_contribution_means_no_emission_and_pricing_stays_disabled() {
    let mut ledger = open_ledger();
    let before = ledger.status().supply;
    let summary = ledger.mine_rewards(9, &DevnetAuthorityConsensus).unwrap();
    assert_eq!(summary.receipts_processed, 0);
    assert_eq!(summary.protocol_subsidy, Amount::zero());
    assert_eq!(ledger.status().supply, before);
    assert!(V01FreeLanePolicy.basic_access_is_free());
    assert!(!V01PricingEngine.enabled());
    assert_eq!(V01PricingEngine.user_resource_fee(u64::MAX), Amount::zero());
}

#[test]
fn atomic_batch_rolls_back_every_change_on_midway_failure() {
    let mut ledger = open_ledger();
    let alice = wallet(7);
    let bob = wallet(8);
    reward_provider(&mut ledger, &alice, &bob, 1);
    let before = ledger.status();
    let good = Transaction::signed(
        &alice,
        &bob.address().unwrap(),
        "1.00000000".parse().unwrap(),
        0,
        1,
        10,
    )
    .unwrap();
    let duplicate_nonce = Transaction::signed(
        &alice,
        &Address::reserve(),
        "1.00000000".parse().unwrap(),
        0,
        1,
        10,
    )
    .unwrap();
    assert!(ledger
        .submit_transactions_atomically(&[good, duplicate_nonce], 1)
        .is_err());
    assert_eq!(ledger.status(), before);
    assert_eq!(ledger.account(&bob.address().unwrap()).balance, Amount::zero());
}

#[test]
fn cross_network_replay_and_expired_transactions_are_rejected() {
    let mut ledger = open_ledger();
    let mainnet_alice = Wallet::from_secret_bytes(NetworkId::Mainnet, [27; 32]);
    let mainnet_bob = Wallet::from_secret_bytes(NetworkId::Mainnet, [28; 32]);
    let cross_network = Transaction::signed(
        &mainnet_alice,
        &mainnet_bob.address().unwrap(),
        Amount::from_atomic(1),
        0,
        1,
        10,
    )
    .unwrap();
    assert!(ledger.submit_transaction(&cross_network, 1).is_err());

    let devnet_alice = wallet(29);
    let receiver = wallet(30);
    reward_provider(&mut ledger, &devnet_alice, &receiver, 1);
    let expired = Transaction::signed(
        &devnet_alice,
        &receiver.address().unwrap(),
        Amount::from_atomic(1),
        0,
        1,
        2,
    )
    .unwrap();
    assert!(ledger.submit_transaction(&expired, 3).is_err());
}

#[test]
fn restart_preserves_balances_nonces_supply_and_history() {
    let mut ledger = open_ledger();
    let report = run_devnet_scenario(&mut ledger).unwrap();
    assert_eq!(report.ledger_after_restart.transactions, 2);
    assert_eq!(report.ledger_after_restart.contribution_receipts, 1);
    assert!(report.ledger_after_restart.supply.reserve_balance > genesis_reserve());
    assert_eq!(report.bob_balance, "3.00000000".parse().unwrap());

    ledger.verify_invariants().unwrap();
    assert_eq!(
        ledger.account(&Address::reserve()).balance,
        report.ledger_after_restart.supply.reserve_balance
    );
    assert_eq!(ledger.transactions(10).len(), 2);
    assert_eq!(ledger.reward_receipts(10).len(), 1);
}

#[test]
fn reserve_balance_never_decreases() {
    let mut ledger = open_ledger();
    let alice = wallet(9);
    let receiver = wallet(10);
    reward_provider(&mut ledger, &alice, &receiver, 1);
    let mut previous = ledger.status().supply.reserve_balance;
    for nonce in 0..10 {
        let transaction =
            Transaction::signed(&alice, &Address::reserve(), Amount::from_atomic(1), nonce, 1, 10)
                .unwrap();
        ledger.submit_transaction(&transaction, 1).unwrap();
        let current = ledger.status().supply.reserve_balance;
        assert!(current >= previous);
        previous = current;
    }
}

#[test]
fn per_epoch_address_reward_cap_is_enforced() {
    let mut ledger = open_ledger();
    let provider = wallet(21);
    let receiver = wallet(22);
    let huge = receipt(
        &provider,
        &receiver,
        "large-contribution",
        23,
        200 * 1_073_741_824,
        ServiceType::StandardUpload,
        4,
        0,
    );
    ledger.submit_contribution(&huge).unwrap();
    let reward = ledger.mine_rewards(4, &DevnetAuthorityConsensus).unwrap();
    assert_eq!(reward.protocol_subsidy, "1000.00000000".parse().unwrap());
}

#[test]
fn abnormal_same_content_cycle_is_rejected_by_ledger() {
    let mut ledger = open_ledger();
    let provider = wallet(24);
    let receiver = wallet(25);
    for nonce in 0..3 {
        let candidate = receipt(
            &provider,
            &receiver,
            &format!("loop-session-{nonce}"),
            26,
            1_000,
            ServiceType::StandardUpload,
            7,
            nonce,
        );
        ledger.submit_contribution(&candidate).unwrap();
    }
    let fourth = receipt(&provider, &receiver, "loop-session-3", 26, 1_000, ServiceType::StandardUpload, 7, 3);
    assert!(ledger.submit_contribution(&fourth).is_err());
}

#[test]
fn transaction_conserves_supply() {
    let mut ledger = open_ledger();
    let alice = wallet(11);
    let bob = wallet(12);
    reward_provider(&mut ledger, &alice, &bob, 1);
    let minted = ledger.status().supply.minted_supply;
    for nonce in 0..20 {
        let transaction =
            Transaction::signed(&alice, &bob.address().unwrap(), Amount::from_atomic(1), nonce, 1, 10)
                .unwrap();
        ledger.submit_transaction(&transaction, 1).unwrap();
        let status = ledger.status();
        assert_eq!(status.supply.minted_supply, minted);
        ledger.verify_invariants().unwrap();
    }
}

#[test]
fn no_negative_balance() {
    let mut ledger = open_ledger();
    let unfunded = wallet(31);
    let receiver = wallet(32);
    let transaction = Transaction::signed(
        &unfunded,
        &receiver.address().unwrap(),
        Amount::from_atomic(1),
        0,
        1,
        10,
    )
    .unwrap();
    assert!(ledger.submit_transaction(&transaction, 1).is_err());
    assert_eq!(ledger.account(&unfunded.address().unwrap()).balance, Amount::zero());
    ledger.verify_invariants().unwrap();
}

#[test]
fn only_reward_mint_can_increase_supply() {
    let mut ledger = open_ledger();
    let alice = wallet(13);
    let bob = wallet(14);
    let genesis = ledger.status().supply.minted_supply;
    reward_provider(&mut ledger, &alice, &bob, 1);
    let after_reward = ledger.status().supply.minted_supply;
    assert!(after_reward > genesis);
    let transaction =
        Transaction::signed(&alice, &bob.address().unwrap(), Amount::from_atomic(1), 0, 1, 10).unwrap();
    ledger.submit_transaction(&transaction, 1).unwrap();
    assert_eq!(ledger.status().supply.minted_supply, after_reward);
}

#[test]
fn ledger_errors_name_each_refusal() {
    let mut ledger = open_ledger();
    let alice = wallet(40);
    let bob = wallet(41);
    assert_eq!(LedgerBook::genesis(NetworkId::Mainnet).err(), Some(LedgerError::NotDevnet));
    let unknown =
        Transaction::signed(&alice, &bob.address().unwrap(), Amount::from_atomic(1), 0, 1, 10).unwrap();
    assert_eq!(ledger.submit_transaction(&unknown, 1), Err(LedgerError::UnknownSender));
    let zero = Transaction::signed(&alice, &bob.address().unwrap(), Amount::zero(), 0, 1, 10).unwrap();
    assert_eq!(ledger.submit_transaction(&zero, 1), Err(LedgerError::ZeroAmount));
    let to_self =
        Transaction::signed(&alice, &alice.address().unwrap(), Amount::from_atomic(1), 0, 1, 10).unwrap();
    assert_eq!(ledger.submit_transaction(&to_self, 1), Err(LedgerError::SelfTransfer));
    let early = Transaction::signed(&alice, &bob.address().unwrap(), Amount::from_atomic(1), 0, 5, 10).unwrap();
    assert_eq!(ledger.submit_transaction(&early, 1), Err(LedgerError::OutsideEpoch));
    reward_provider(&mut ledger, &alice, &bob, 1);
    let wrong_nonce =
        Transaction::signed(&alice, &bob.address().unwrap(), Amount::from_atomic(1), 7, 1, 10).unwrap();
    assert_eq!(ledger.submit_transaction(&wrong_nonce, 1), Err(LedgerError::Nonce));
    let all = ledger.account(&alice.address().unwrap()).balance;
    let too_much = Transaction::signed(
        &alice,
        &bob.address().unwrap(),
        all.checked_add(Amount::from_atomic(1)).unwrap(),
        0,
        1,
        10,
    )
    .unwrap();
    assert_eq!(
        ledger.submit_transaction(&too_much, 1),
        Err(LedgerError::Amount(AmountError::InsufficientBalance))
    );
    let mut forged = Transaction::signed(&alice, &bob.address().unwrap(), Amount::from_atomic(1), 0, 1, 10).unwrap();
    forged.amount = Amount::from_atomic(2);
    assert!(matches!(
        ledger.submit_transaction(&forged, 1),
        Err(LedgerError::Transaction(_))
    ));
    let fourth = receipt(&alice, &bob, "s", 1, 1_000, ServiceType::StandardUpload, 1, 99);
    let third = receipt(&alice, &bob, "t", 1, 1_000, ServiceType::StandardUpload, 1, 98);
    ledger.submit_contribution(&third).unwrap();
    assert_eq!(
        ledger.submit_contribution(&third),
        Err(LedgerError::DuplicateReceipt)
    );
    let _ = fourth;
    let mut other_network = receipt(&alice, &bob, "u", 2, 1_000, ServiceType::StandardUpload, 1, 97);
    other_network.network_id = NetworkId::Mainnet;
    assert!(matches!(
        ledger.submit_contribution(&other_network),
        Err(LedgerError::Receipt(_))
    ));
    for n in 0..1 {
        let again = receipt(&alice, &bob, &format!("loop-{n}"), 1, 1_000, ServiceType::StandardUpload, 1, 90 + n);
        ledger.submit_contribution(&again).unwrap();
    }
    let looped = receipt(&alice, &bob, "loop-3", 1, 1_000, ServiceType::StandardUpload, 1, 80);
    assert_eq!(
        ledger.submit_contribution(&looped),
        Err(LedgerError::Score(ScoreError::RepeatedContentLoop))
    );
}

#[test]
fn mining_rewards_exactly_and_only_once() {
    let mut ledger = open_ledger();
    let alice = wallet(50);
    let bob = wallet(51);
    let first = receipt(&alice, &bob, "one", 1, 1_073_741_824, ServiceType::StandardUpload, 3, 0);
    let id = ledger.submit_contribution(&first).unwrap();
    assert_eq!(id, first.id());
    assert_eq!(ledger.status().pending_receipts, 1);
    let summary = ledger.mine_rewards(3, &DevnetAuthorityConsensus).unwrap();
    assert_eq!(summary.receipts_processed, 1);
    assert_eq!(summary.total_score_bytes, 1_073_741_824);
    assert_eq!(summary.protocol_subsidy.atomic(), 1_000_000_000);
    assert_eq!(summary.emission_phase, 0);
    assert_eq!(ledger.account(&alice.address().unwrap()).balance.atomic(), 1_000_000_000);
    assert_eq!(ledger.status().pending_receipts, 0);
    assert_eq!(ledger.reward_receipts(1)[0].status, "rewarded");
    assert_eq!(ledger.mine_in_order(3, &vec![first.duplicate()]), Err(LedgerError::NotPending));
    let stranger = receipt(&alice, &bob, "two", 2, 10, ServiceType::StandardUpload, 3, 1);
    assert_eq!(ledger.mine_in_order(3, &vec![stranger]), Err(LedgerError::UnknownReceipt));
    let again = ledger.mine_rewards(3, &DevnetAuthorityConsensus).unwrap();
    assert_eq!(again.receipts_processed, 0);
    let status = ledger.status();
    assert_eq!(
        status.supply.minted_supply.atomic(),
        genesis_reserve().atomic() + 1_000_000_000
    );
    ledger.verify_invariants().unwrap();
}

#[test]
fn devnet_consensus_orders_by_receipt_id() {
    let alice = wallet(60);
    let bob = wallet(61);
    let mut receipts: Vec<ContributionReceipt> = (0..5)
        .map(|n| receipt(&alice, &bob, &format!("order-{n}"), n as u8, 100, ServiceType::StandardUpload, 1, n))
        .collect();
    sort_by_id(&mut receipts);
    let ids: Vec<String> = receipts.iter().map(|r| r.id()).collect();
    let mut sorted = ids.clone();
    sorted.sort();
    assert_eq!(ids, sorted);
    assert_eq!(ids.len(), 5);
}

#[test]
fn listings_are_newest_first_and_capped() {
    let mut ledger = open_ledger();
    let alice = wallet(70);
    let bob = wallet(71);
    reward_provider(&mut ledger, &alice, &bob, 1);
    for nonce in 0..3 {
        let t = Transaction::signed(&alice, &bob.address().unwrap(), Amount::from_atomic(1), nonce, 1, 10).unwrap();
        ledger.submit_transaction(&t, 1).unwrap();
    }
    let listed = ledger.transactions(2);
    assert_eq!(listed.len(), 2);
    assert_eq!(listed[0].transaction.nonce, 2);
    assert_eq!(listed[1].transaction.nonce, 1);
    assert_eq!(ledger.transactions(0).len(), 0);
    assert_eq!(ledger.transactions(u32::MAX).len(), 3);
}

#[test]
fn devnet_scenario_records_each_step() {
    let mut ledger = open_ledger();
    let report = run_devnet_scenario(&mut ledger).unwrap();
    assert_eq!(report.reward.epoch, 1);
    assert_eq!(report.reward.receipts_processed, 1);
    assert_eq!(report.reward.user_resource_fees, Amount::zero());
    let listed = ledger.transactions(10);
    assert_eq!(listed.len(), 2);
    let to_reserve = &listed[0];
    let to_bob = &listed[1];
    assert_eq!(to_bob.transaction_id, report.alice_to_bob_transaction_id);
    assert_eq!(to_bob.transaction.from, report.alice_address);
    assert_eq!(to_bob.transaction.to, report.bob_address);
    assert_eq!(to_bob.transaction.amount, Amount::from_atomic(500_000_000));
    assert_eq!(to_reserve.transaction_id, report.bob_to_reserve_transaction_id);
    assert_eq!(to_reserve.transaction.from, report.bob_address);
    assert_eq!(to_reserve.transaction.to, "SMD_PERMANENT_RESERVE");
    assert_eq!(to_reserve.transaction.amount, Amount::from_atomic(200_000_000));
    let rewarded = ledger.reward_receipts(10);
    assert_eq!(rewarded.len(), 1);
    assert_eq!(rewarded[0].receipt_id, report.contribution_receipt_id);
}

#[test]
fn stored_transfer_id_or_sender_nonce_is_refused() {
    let mut ledger = open_ledger();
    let alice = wallet(21);
    let bob = wallet(22);
    reward_provider(&mut ledger, &alice, &bob, 1);
    let transfer = Transaction::signed(&alice, &bob.address().unwrap(), Amount::from_atomic(100), 0, 1, 5).unwrap();
    ledger.submit_transaction(&transfer, 1).unwrap();
    let alice_text = alice.address().unwrap().to_text();
    let position = ledger.accounts.iter().position(|a| a.address == alice_text).unwrap();
    ledger.accounts[position].nonce = 0;
    assert_eq!(ledger.submit_transaction(&transfer, 1), Err(LedgerError::DuplicateTransaction));
    let other = Transaction::signed(&alice, &bob.address().unwrap(), Amount::from_atomic(200), 0, 1, 5).unwrap();
    assert_eq!(ledger.submit_transaction(&other, 1), Err(LedgerError::DuplicateTransaction));
    ledger.accounts[position].nonce = 1;
    assert_eq!(ledger.verify_invariants(), Ok(()));
    let copy = ledger.transactions[0].clone();
    ledger.transactions.push(copy);
    assert_eq!(ledger.verify_invariants(), Err(LedgerError::DuplicateTransaction));
}

#[test]
fn fresh_devnet_scenario_ends_with_the_stated_balances() {
    let mut ledger = open_ledger();
    let report = run_devnet_scenario(&mut ledger).unwrap();
    assert_eq!(report.alice_balance.atomic(), 2_000_000_000);
    assert_eq!(report.bob_balance.atomic(), 300_000_000);
    assert_eq!(report.reward.protocol_subsidy.atomic(), 2_500_000_000);
    assert_eq!(report.reward.receipts_processed, 1);
    assert_eq!(report.ledger_after_restart.accounts, 3);
    assert_eq!(report.ledger_after_restart.supply.reserve_balance.atomic(), 100_000_200_000_000);
}

#[test]
fn mining_an_epoch_again_processes_nothing() {
    let mut ledger = open_ledger();
    run_devnet_scenario(&mut ledger).unwrap();
    let before = ledger.status();
    let again = ledger.mine_rewards(1, &DevnetAuthorityConsensus).unwrap();
    assert_eq!(again.receipts_processed, 0);
    assert_eq!(again.protocol_subsidy, Amount::zero());
    assert_eq!(ledger.status().supply, before.supply);
}
