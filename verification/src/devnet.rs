//! The devnet scenario: two wallets, one rewarded contribution, a transfer
//! between them and a transfer to the permanent reserve.

use vstd::prelude::*;

use crate::address::{address_of_key, Address, AddressError, NetworkId, PERMANENT_RESERVE_ADDRESS};
use crate::amount::Amount;
use crate::consensus::{ConsensusEngine, DevnetAuthorityConsensus};
use crate::contribution::{ContributionReceipt, ReceiptError, ServiceType};
use crate::crypto::{ed25519_public, sha256_hex};
use crate::address::address_check;
use crate::codec::{hex_lower, sha256_digest};
use vstd::string::StringSliceAdditionalSpecFns;
use crate::crypto::{domain_message, ed25519_signature, lemma_hex_text, SigningDomain};
use crate::ledger::{
    accounts_view, credited, lemma_reward_all_keeps_receipts, mine_start, pending_of, position, reward_all, reward_step,
    transfer_check, transfer_rules, transferred, AccountModel, LedgerBook, LedgerError, LedgerStatus, MineState,
    TransactionRecord,
};
use crate::ledger::receipt_id_of;
use crate::supply::GENESIS_RESERVE_ATOMIC;
use crate::text::ascii_chars;
use crate::transaction::{law_signed_transaction_verifies, lemma_transaction_json_len, signed_by, transaction_signing_bytes, utf8};
use crate::rewards::RewardSummary;
use crate::transaction::Transaction;
use crate::wallet::Wallet;

verus! {

/// The label every scenario report carries.
pub const DEVNET_LABEL: &'static str = "DEVNET / EXPERIMENTAL / NOT REAL-MONEY READY";

/// What the devnet scenario did.
#[derive(Debug, Clone, PartialEq, Eq)]
pub struct DevnetScenarioReport {
    pub label: String,
    pub network_id: NetworkId,
    pub alice_address: String,
    pub bob_address: String,
    pub contribution_receipt_id: String,
    pub reward: RewardSummary,
    pub alice_to_bob_transaction_id: String,
    pub bob_to_reserve_transaction_id: String,
    pub alice_balance: Amount,
    pub bob_balance: Amount,
    pub ledger_after_restart: LedgerStatus,
}

/// Why the devnet scenario stopped.
#[derive(Debug, Clone, Copy, PartialEq, Eq, Structural)]
pub enum DevnetError {
    /// The ledger already holds transactions or receipts.
    NotFresh,
    Address(AddressError),
    Receipt(ReceiptError),
    Ledger(LedgerError),
}

/// A transfer record of the scenario: its id, sender, receiver and amount,
/// accepted in epoch 1.
pub open spec fn scenario_transfer(r: TransactionRecord, id: Seq<char>, from: Seq<char>, to: Seq<char>, amount: u64) -> bool {
    &&& r.transaction_id@ == id
    &&& r.transaction.from@ == from
    &&& r.transaction.to@ == to
    &&& r.transaction.amount.atomic() == amount
    &&& r.accepted_epoch == 1
}

/// Alice's secret key in the scenario.
pub open spec fn alice_secret() -> Seq<u8> {
    Seq::new(32, |i: int| 0xA1u8)
}

/// Bob's secret key in the scenario.
pub open spec fn bob_secret() -> Seq<u8> {
    Seq::new(32, |i: int| 0xB2u8)
}

/// The devnet address of a secret key.
pub open spec fn devnet_address(secret: Seq<u8>) -> Option<Seq<char>> {
    address_of_key(NetworkId::Devnet, ed25519_public(secret))
}

/// The permanent reserve's account as genesis opens it.
pub open spec fn genesis_reserve_account() -> AccountModel {
    AccountModel { address: PERMANENT_RESERVE_ADDRESS@, balance: GENESIS_RESERVE_ATOMIC, nonce: 0, public_key: None }
}

/// A devnet book as genesis leaves it: the reserve alone, the genesis
/// supply, nothing stored, and the default anti-fraud limits.
pub open spec fn fresh_devnet_book(b: LedgerBook) -> bool {
    &&& b.network == NetworkId::Devnet
    &&& accounts_view(b.accounts@) == seq![genesis_reserve_account()]
    &&& b.supply == crate::supply::SupplyState::genesis_spec()
    &&& b.transactions@.len() == 0
    &&& b.receipts@.len() == 0
    &&& b.epochs@.len() == 0
    &&& b.anti_fraud.max_same_content_per_pair_epoch == 3
    &&& b.anti_fraud.max_protocol_reward_per_address_epoch.atomic() == 100_000_000_000
}

/// A transfer as the scenario signs it: version 1 on the devnet from a
/// key's address, at nonce 0, valid from epoch 1 to 10.
pub open spec fn scenario_transfer_from(t: Transaction, secret: Seq<u8>, to: Seq<char>, amount: u64) -> bool {
    &&& t.version == 1
    &&& t.network_id == NetworkId::Devnet
    &&& devnet_address(secret) == Some(t.from@)
    &&& t.to@ == to
    &&& t.amount.atomic() == amount
    &&& t.nonce == 0
    &&& t.created_epoch == 1
    &&& t.expiry_epoch == 10
    &&& signed_by(t, secret)
}

/// What bech32 and SHA-256 decide for the scenario: Alice's and Bob's
/// addresses differ, and so do the ids of the two transfers.
pub open spec fn scenario_names_apart() -> bool {
    &&& devnet_address(alice_secret()) != devnet_address(bob_secret())
    &&& forall|a: Transaction, b: Transaction|
        #![trigger crate::ledger::transaction_id(a), crate::ledger::transaction_id(b)]
        scenario_transfer_from(a, alice_secret(), devnet_address(bob_secret())->0, 500_000_000)
            && scenario_transfer_from(b, bob_secret(), PERMANENT_RESERVE_ADDRESS@, 200_000_000)
            ==> crate::ledger::transaction_id(a) != crate::ledger::transaction_id(b)
}

/// A scenario transfer passes the ledger's checks in epoch 1 when its
/// sender's account is at nonce 0 under no other key and holds the amount,
/// and the receiver's balance has room for it.
proof fn lemma_scenario_transfer_checks(accounts: Seq<AccountModel>, t: Transaction, secret: Seq<u8>, to: Seq<char>, amount: u64)
    requires
        scenario_transfer_from(t, secret, to, amount),
        utf8(t.from@).len() <= 128,
        utf8(t.to@).len() <= 128,
        address_check(t.from@, NetworkId::Devnet) is Ok,
        address_check(t.to@, NetworkId::Devnet) is Ok,
        t.from@ != PERMANENT_RESERVE_ADDRESS@,
        t.from@ != t.to@,
        amount > 0,
        position(accounts, t.from@) < accounts.len(),
        accounts[position(accounts, t.from@)].nonce == 0,
        accounts[position(accounts, t.from@)].public_key matches Some(k) ==> k == t.from_public_key@,
        accounts[position(accounts, t.from@)].balance >= amount,
        position(accounts, t.to@) < accounts.len() ==> accounts[position(accounts, t.to@)].balance + amount <= u64::MAX,
    ensures
        transfer_check(accounts, NetworkId::Devnet, t, 1) is Ok,
{
    reveal(transfer_check);
    reveal(transfer_rules);
    law_signed_transaction_verifies(t, secret);
    let message = domain_message(SigningDomain::Transaction, transaction_signing_bytes(t));
    lemma_hex_text(ed25519_public(secret));
    lemma_hex_text(ed25519_signature(secret, message));
    lemma_transaction_json_len(t);
}

/// Rewarding Alice's single receipt in epoch 1 from the genesis emission
/// pays her 25 SMD into a new account.
proof fn lemma_scenario_reward(s: MineState, r: ContributionReceipt, alice: Seq<char>, key: Seq<char>)
    requires
        s.accounts == seq![genesis_reserve_account()],
        s.receipts.len() == 1,
        s.receipts[0].receipt_id@ == receipt_id_of(r),
        s.receipts[0].score_bytes == 2_684_354_560,
        !s.receipts[0].rewarded,
        s.emitted == 0,
        s.total_score == 0,
        s.total_subsidy == 0,
        r.provider_address@ == alice,
        r.provider_public_key@ == key,
        alice.len() == 45,
    ensures
        reward_all(s, seq![r], 1, 100_000_000_000) is Ok,
        reward_all(s, seq![r], 1, 100_000_000_000)->Ok_0.accounts == seq![
            genesis_reserve_account(),
            AccountModel { address: alice, balance: 2_500_000_000, nonce: 0, public_key: Some(key) },
        ],
        reward_all(s, seq![r], 1, 100_000_000_000)->Ok_0.total_subsidy == 2_500_000_000,
        reward_all(s, seq![r], 1, 100_000_000_000)->Ok_0.emitted == 2_500_000_000,
{
    reveal_strlit("SMD_PERMANENT_RESERVE");
    reveal(reward_step);
    reveal(credited);
    reveal(crate::ledger::credit_check);
    reveal_with_fuel(reward_all, 2);
    reveal_with_fuel(crate::ledger::rewarded_sum, 2);
    reveal_with_fuel(position, 2);
    assert(seq![r].drop_first() =~= Seq::<ContributionReceipt>::empty());
    assert(s.receipts.drop_last() =~= Seq::<crate::ledger::ReceiptEntry>::empty());
    assert(s.accounts.drop_first() =~= Seq::<AccountModel>::empty());
    assert(alice != PERMANENT_RESERVE_ADDRESS@);
    assert((1_100_000_000_000_000u64 >> 1u32) == 550_000_000_000_000u64) by (bit_vector);
    assert(crate::emission::phase_boundary(0) == 550_000_000_000_000u64);
    assert((1_000_000_000u64 >> 0u32) == 1_000_000_000u64) by (bit_vector);
    assert(crate::emission::emission_phase(0) == 0);
    assert(crate::emission::phase_rate(0) == 1_000_000_000);
    assert((2_684_354_560int * 1_000_000_000int) / 1_073_741_824int == 2_500_000_000int) by (nonlinear_arith);
    assert(crate::emission::raw_reward(2_684_354_560, 0) == 2_500_000_000);
    assert(crate::emission::quoted_subsidy(2_684_354_560, 0) == 2_500_000_000);
    assert(crate::ledger::receipt_position(s.receipts, receipt_id_of(r)) == 0);
    assert(crate::ledger::rewarded_sum(s.receipts, r.provider_address@, 1) == 0);
    assert(position(s.accounts, alice) == 1);
    assert(crate::ledger::credit_check(s.accounts, alice, key, 2_500_000_000) is Ok);
    assert(reward_step(s, r, 1, 100_000_000_000) is Ok);
    let t = reward_step(s, r, 1, 100_000_000_000)->Ok_0;
    assert(t.accounts =~= seq![
        genesis_reserve_account(),
        AccountModel { address: alice, balance: 2_500_000_000, nonce: 0, public_key: Some(key) },
    ]);
}

/// Alice's rewarded account.
pub open spec fn rewarded_alice(alice: Seq<char>, key: Seq<char>) -> AccountModel {
    AccountModel { address: alice, balance: 2_500_000_000, nonce: 0, public_key: Some(key) }
}

/// Alice pays Bob 5 SMD: she keeps 20 SMD at nonce 1 and Bob's account opens
/// with 5 SMD.
proof fn lemma_first_transfer(t: Transaction, alice: Seq<char>, bob: Seq<char>, key: Seq<char>)
    requires
        scenario_transfer_from(t, alice_secret(), bob, 500_000_000),
        t.from@ == alice,
        t.from_public_key@ == key,
        alice.len() == 45,
        bob.len() == 45,
        vstd::utf8::encode_utf8(alice).len() == 45,
        vstd::utf8::encode_utf8(bob).len() == 45,
        address_check(alice, NetworkId::Devnet) is Ok,
        address_check(bob, NetworkId::Devnet) is Ok,
        alice != bob,
    ensures
        transfer_check(seq![genesis_reserve_account(), rewarded_alice(alice, key)], NetworkId::Devnet, t, 1) is Ok,
        transferred(seq![genesis_reserve_account(), rewarded_alice(alice, key)], t) == seq![
            genesis_reserve_account(),
            AccountModel { address: alice, balance: 2_000_000_000, nonce: 1, public_key: Some(key) },
            AccountModel { address: bob, balance: 500_000_000, nonce: 0, public_key: None },
        ],
{
    reveal_strlit("SMD_PERMANENT_RESERVE");
    reveal_with_fuel(position, 3);
    reveal(transferred);
    let accounts = seq![genesis_reserve_account(), rewarded_alice(alice, key)];
    assert(accounts.drop_first() =~= seq![rewarded_alice(alice, key)]);
    assert(accounts.drop_first().drop_first() =~= Seq::<AccountModel>::empty());
    assert(position(accounts, alice) == 1);
    assert(position(accounts, bob) == 2);
    lemma_scenario_transfer_checks(accounts, t, alice_secret(), bob, 500_000_000);
    assert(transferred(accounts, t) =~= seq![
        genesis_reserve_account(),
        AccountModel { address: alice, balance: 2_000_000_000, nonce: 1, public_key: Some(key) },
        AccountModel { address: bob, balance: 500_000_000, nonce: 0, public_key: None },
    ]);
}

/// Bob pays the permanent reserve 2 SMD: he keeps 3 SMD at nonce 1 and the
/// reserve holds its genesis balance and 2 SMD more.
proof fn lemma_second_transfer(t: Transaction, alice: Seq<char>, bob: Seq<char>, akey: Seq<char>, bkey: Seq<char>)
    requires
        scenario_transfer_from(t, bob_secret(), PERMANENT_RESERVE_ADDRESS@, 200_000_000),
        t.from@ == bob,
        t.from_public_key@ == bkey,
        alice.len() == 45,
        bob.len() == 45,
        vstd::utf8::encode_utf8(bob).len() == 45,
        address_check(bob, NetworkId::Devnet) is Ok,
        alice != bob,
    ensures
        ({
            let accounts = seq![
                genesis_reserve_account(),
                AccountModel { address: alice, balance: 2_000_000_000, nonce: 1, public_key: Some(akey) },
                AccountModel { address: bob, balance: 500_000_000, nonce: 0, public_key: None },
            ];
            &&& transfer_check(accounts, NetworkId::Devnet, t, 1) is Ok
            &&& transferred(accounts, t) == seq![
                AccountModel {
                    address: PERMANENT_RESERVE_ADDRESS@,
                    balance: 100_000_200_000_000,
                    nonce: 0,
                    public_key: None,
                },
                AccountModel { address: alice, balance: 2_000_000_000, nonce: 1, public_key: Some(akey) },
                AccountModel { address: bob, balance: 300_000_000, nonce: 1, public_key: Some(bkey) },
            ]
        }),
{
    reveal_strlit("SMD_PERMANENT_RESERVE");
    reveal_with_fuel(position, 4);
    reveal(transferred);
    let accounts = seq![
        genesis_reserve_account(),
        AccountModel { address: alice, balance: 2_000_000_000, nonce: 1, public_key: Some(akey) },
        AccountModel { address: bob, balance: 500_000_000, nonce: 0, public_key: None },
    ];
    assert(accounts.drop_first() =~= seq![accounts[1], accounts[2]]);
    assert(accounts.drop_first().drop_first() =~= seq![accounts[2]]);
    assert(position(accounts, bob) == 2);
    assert(position(accounts, PERMANENT_RESERVE_ADDRESS@) == 0);
    crate::json::lemma_utf8_len(PERMANENT_RESERVE_ADDRESS@);
    assert(address_check(PERMANENT_RESERVE_ADDRESS@, NetworkId::Devnet) is Ok);
    lemma_scenario_transfer_checks(accounts, t, bob_secret(), PERMANENT_RESERVE_ADDRESS@, 200_000_000);
    assert(transferred(accounts, t) =~= seq![
        AccountModel {
            address: PERMANENT_RESERVE_ADDRESS@,
            balance: 100_000_200_000_000,
            nonce: 0,
            public_key: None,
        },
        AccountModel { address: alice, balance: 2_000_000_000, nonce: 1, public_key: Some(akey) },
        AccountModel { address: bob, balance: 300_000_000, nonce: 1, public_key: Some(bkey) },
    ]);
}

/// A sequence that holds the same items as a one-item sequence is that sequence.
proof fn lemma_single_choice(chosen: Seq<ContributionReceipt>, r: ContributionReceipt)
    requires
        chosen.to_multiset() == seq![r].to_multiset(),
    ensures
        chosen == seq![r],
{
    chosen.to_multiset_ensures();
    seq![r].to_multiset_ensures();
    assert(chosen.len() == 1);
    assert(chosen.contains(chosen[0]));
    assert(chosen.to_multiset().count(chosen[0]) > 0);
    assert(seq![r].to_multiset().count(chosen[0]) > 0);
    assert(seq![r].contains(chosen[0]));
    let k = choose|k: int| 0 <= k < 1 && seq![r][k] == chosen[0];
    assert(k == 0);
    assert(chosen =~= seq![r]);
}

/// Alice's receipt for Bob passes the ledger's receipt checks on a book
/// without receipts, with a score of 2.5 GiB (2 GiB at the reconstruction
/// weight).
proof fn lemma_scenario_receipt(
    r: ContributionReceipt,
    alice: Seq<u8>,
    bob: Seq<u8>,
    digest: Seq<u8>,
    receipts: Seq<crate::ledger::ReceiptEntry>,
    policy: crate::rewards::AntiFraudPolicy,
)
    requires
        receipts.len() == 0,
        policy.max_same_content_per_pair_epoch == 3,
        r.version == 1,
        r.network_id == NetworkId::Devnet,
        address_of_key(NetworkId::Devnet, ed25519_public(alice)) == Some(r.provider_address@),
        address_of_key(NetworkId::Devnet, ed25519_public(bob)) == Some(r.receiver_address@),
        r.provider_address@ != r.receiver_address@,
        vstd::utf8::encode_utf8(r.provider_address@).len() == 45,
        vstd::utf8::encode_utf8(r.receiver_address@).len() == 45,
        r.provider_public_key@ == ascii_chars(hex_lower(ed25519_public(alice))),
        r.receiver_public_key@ == ascii_chars(hex_lower(ed25519_public(bob))),
        ed25519_public(alice).len() == 32,
        ed25519_public(bob).len() == 32,
        r.session_id@ == "smd-v01-scenario-session"@,
        r.content_hash@ == ascii_chars(hex_lower(digest)),
        digest.len() == 32,
        r.bytes_delivered == 2 * 1_073_741_824,
        r.service_type == ServiceType::CdcReconstructionUpload,
        r.content_verified,
        r.receiver_signature@ == ascii_chars(hex_lower(ed25519_signature(
            bob,
            domain_message(SigningDomain::ContributionReceipt, crate::contribution::receipt_signing_bytes(r)),
        ))),
        ed25519_signature(bob, domain_message(SigningDomain::ContributionReceipt, crate::contribution::receipt_signing_bytes(r))).len() == 64,
        crate::crypto::ed25519_valid(
            ed25519_public(bob),
            ed25519_signature(bob, domain_message(SigningDomain::ContributionReceipt, crate::contribution::receipt_signing_bytes(r))),
            domain_message(SigningDomain::ContributionReceipt, crate::contribution::receipt_signing_bytes(r)),
        ),
    ensures
        crate::ledger::contribution_check(receipts, NetworkId::Devnet, policy, r) == Ok::<u64, LedgerError>(2_684_354_560),
{
    let message = domain_message(SigningDomain::ContributionReceipt, crate::contribution::receipt_signing_bytes(r));
    reveal_strlit("smd-v01-scenario-session");
    crate::json::lemma_utf8_len(r.session_id@);
    crate::contribution::lemma_confirmed_receipt_checks(r, alice, bob, digest);
    lemma_hex_text(ed25519_public(alice));
    lemma_hex_text(ed25519_public(bob));
    lemma_hex_text(ed25519_signature(bob, message));
    lemma_hex_text(digest);
    crate::contribution::lemma_receipt_json_len(r);
    assert(crate::rewards::contribution_score(2_147_483_648u64, ServiceType::CdcReconstructionUpload, 0u32) == 2_684_354_560);
}

/// The book once Alice's receipt was taken on a fresh devnet book.
pub open spec fn scenario_taken(taken: LedgerBook, r: ContributionReceipt, alice: Seq<char>, key: Seq<char>) -> bool {
    &&& accounts_view(taken.accounts@) == seq![genesis_reserve_account()]
    &&& taken.supply == crate::supply::SupplyState::genesis_spec()
    &&& taken.epochs@.len() == 0
    &&& taken.anti_fraud.max_protocol_reward_per_address_epoch.atomic() == 100_000_000_000
    &&& taken.receipts@.len() == 1
    &&& taken.receipts@[0].receipt_id@ == receipt_id_of(r)
    &&& taken.receipts@[0].receipt == r
    &&& taken.receipts@[0].score_bytes == 2_684_354_560
    &&& !taken.receipts@[0].rewarded
    &&& r.provider_address@ == alice
    &&& r.provider_public_key@ == key
    &&& r.epoch == 1
    &&& alice.len() == 45
}

/// Mining epoch 1 over Alice's receipt alone is never refused.
proof fn lemma_scenario_no_refusal(
    taken: LedgerBook,
    r: ContributionReceipt,
    alice: Seq<char>,
    key: Seq<char>,
    chosen: Seq<ContributionReceipt>,
    e: LedgerError,
)
    requires
        scenario_taken(taken, r, alice, key),
        chosen.to_multiset() == seq![r].to_multiset(),
    ensures
        !crate::ledger::mine_refusal(taken, 1, chosen, e),
{
    lemma_single_choice(chosen, r);
    crate::amount::Amount::lemma_from_atomic(0);
    lemma_scenario_reward(mine_start(taken), r, alice, key);
}

/// Mining epoch 1 over Alice's receipt alone pays her 25 SMD and keeps the
/// reserve.
proof fn lemma_scenario_mined(
    taken: LedgerBook,
    after: LedgerBook,
    r: ContributionReceipt,
    alice: Seq<char>,
    key: Seq<char>,
    chosen: Seq<ContributionReceipt>,
    summary: RewardSummary,
)
    requires
        scenario_taken(taken, r, alice, key),
        chosen.to_multiset() == seq![r].to_multiset(),
        crate::ledger::mined(taken, after, 1, chosen, summary),
    ensures
        accounts_view(after.accounts@) == seq![genesis_reserve_account(), rewarded_alice(alice, key)],
        after.supply.reserve_balance.atomic() == GENESIS_RESERVE_ATOMIC,
        summary.protocol_subsidy.atomic() == 2_500_000_000,
        after.receipts@.len() == 1,
        after.receipts@[0].receipt_id == taken.receipts@[0].receipt_id,
        after.receipts@[0].receipt == r,
{
    lemma_single_choice(chosen, r);
    crate::amount::Amount::lemma_from_atomic(0);
    crate::amount::Amount::lemma_from_atomic(GENESIS_RESERVE_ATOMIC);
    lemma_scenario_reward(mine_start(taken), r, alice, key);
    lemma_reward_all_keeps_receipts(mine_start(taken), chosen, 1, 100_000_000_000);
}

/// Bob confirms Alice's 2 GiB delivery and the ledger takes the receipt.
/// From a fresh devnet book, with distinct addresses, it is taken.
#[verifier::rlimit(100)]
#[verifier::spinoff_prover]
fn take_alice_receipt(
    book: &mut LedgerBook,
    alice: &Wallet,
    bob: &Wallet,
    alice_address: &Address,
    bob_address: &Address,
) -> (result: Result<(String, ContributionReceipt), DevnetError>)
    requires
        old(book).wf(),
        old(book).receipts@.len() == 0,
        alice.network_spec() == NetworkId::Devnet,
        bob.network_spec() == NetworkId::Devnet,
        devnet_address(alice.secret_spec()) == Some(alice_address@),
        devnet_address(bob.secret_spec()) == Some(bob_address@),
        alice_address@.len() == 45,
        bob_address@.len() == 45,
        vstd::utf8::encode_utf8(alice_address@).len() == 45,
        vstd::utf8::encode_utf8(bob_address@).len() == 45,
    ensures
        final(book).wf(),
        !(result matches Err(DevnetError::NotFresh)),
        result matches Ok((id, r)) ==> {
            &&& final(book).transactions == old(book).transactions
            &&& final(book).network == old(book).network
            &&& final(book).receipts@.len() == 1
            &&& final(book).receipts@[0].receipt_id == id
            &&& final(book).receipts@[0].receipt == r
            &&& id@ == receipt_id_of(r)
            &&& !final(book).receipts@[0].rewarded
            &&& r.provider_address@ == alice_address@
            &&& r.receiver_address@ == bob_address@
            &&& r.provider_public_key@ == ascii_chars(hex_lower(ed25519_public(alice.secret_spec())))
            &&& r.bytes_delivered == 2 * 1_073_741_824
            &&& r.service_type == ServiceType::CdcReconstructionUpload
            &&& r.epoch == 1
        },
        (fresh_devnet_book(*old(book)) && alice_address@ != bob_address@) ==> {
            &&& result is Ok
            &&& scenario_taken(
                *final(book),
                result->Ok_0.1,
                alice_address@,
                ascii_chars(hex_lower(ed25519_public(alice.secret_spec()))),
            )
        },
{
    let ghost before = *book;
    let ghost premise = fresh_devnet_book(before) && alice_address@ != bob_address@;
    let session = String::from_str("smd-v01-scenario-session");
    let content = sha256_hex("verified-shardmeld-payload".as_bytes());
    let receipt = match ContributionReceipt::confirmed(
        alice,
        bob,
        session,
        content,
        2 * 1_073_741_824,
        ServiceType::CdcReconstructionUpload,
        1,
        0,
    ) {
        Ok(r) => r,
        Err(e) => {
            return Err(DevnetError::Receipt(e));
        },
    };
    proof {
        if premise {
            lemma_scenario_receipt(
                receipt,
                alice.secret_spec(),
                bob.secret_spec(),
                sha256_digest("verified-shardmeld-payload".spec_bytes()),
                before.receipts@,
                before.anti_fraud,
            );
        }
    }
    let receipt_id = match book.submit_contribution(&receipt) {
        Ok(id) => id,
        Err(e) => {
            return Err(DevnetError::Ledger(e));
        },
    };
    Ok((receipt_id, receipt))
}

/// Mines epoch 1 after Alice's receipt was taken. From the book a fresh
/// devnet book becomes once the receipt is taken, it pays Alice 25 SMD.
#[verifier::rlimit(100)]
#[verifier::spinoff_prover]
fn mine_alice_reward(book: &mut LedgerBook, receipt: &ContributionReceipt, alice_address: &Address, key: Ghost<Seq<char>>) -> (result: Result<
    RewardSummary,
    DevnetError,
>)
    requires
        old(book).wf(),
        old(book).receipts@.len() == 1,
        old(book).receipts@[0].receipt == *receipt,
        !old(book).receipts@[0].rewarded,
        receipt.epoch == 1,
    ensures
        final(book).wf(),
        !(result matches Err(DevnetError::NotFresh)),
        result matches Ok(reward) ==> {
            &&& final(book).transactions == old(book).transactions
            &&& final(book).network == old(book).network
            &&& final(book).receipts@.len() == 1
            &&& final(book).receipts@[0].receipt_id == old(book).receipts@[0].receipt_id
            &&& final(book).receipts@[0].receipt == *receipt
            &&& reward.epoch == 1
            &&& reward.receipts_processed == 1
            &&& reward.user_resource_fees.atomic() == 0
        },
        scenario_taken(*old(book), *receipt, alice_address@, key@) ==> {
            &&& result is Ok
            &&& accounts_view(final(book).accounts@) == seq![genesis_reserve_account(), rewarded_alice(alice_address@, key@)]
            &&& final(book).supply.reserve_balance.atomic() == GENESIS_RESERVE_ATOMIC
            &&& result->Ok_0.protocol_subsidy.atomic() == 2_500_000_000
        },
{
    let ghost taken = *book;
    proof {
        reveal_with_fuel(pending_of, 2);
        assert(taken.receipts@.drop_last() =~= Seq::<crate::ledger::ReceiptEntry>::empty());
        assert(pending_of(taken.receipts@, 1) =~= seq![*receipt]);
    }
    let reward = match book.mine_rewards(1, &DevnetAuthorityConsensus) {
        Ok(s) => s,
        Err(e) => {
            proof {
                let consensus = DevnetAuthorityConsensus;
                assert(consensus.never_refuses());
                if scenario_taken(taken, *receipt, alice_address@, key@) {
                    if exists|listed: Seq<ContributionReceipt>, chosen: Seq<ContributionReceipt>|
                        {
                            &&& listed.to_multiset() == pending_of(taken.receipts@, 1).to_multiset()
                            &&& crate::consensus::sorted_by_id(listed)
                            &&& #[trigger] consensus.orders(listed, chosen)
                            &&& #[trigger] crate::ledger::mine_refusal(taken, 1, chosen, e)
                        } {
                        let (listed, chosen) = choose|listed: Seq<ContributionReceipt>, chosen: Seq<ContributionReceipt>|
                            {
                                &&& listed.to_multiset() == pending_of(taken.receipts@, 1).to_multiset()
                                &&& crate::consensus::sorted_by_id(listed)
                                &&& #[trigger] consensus.orders(listed, chosen)
                                &&& #[trigger] crate::ledger::mine_refusal(taken, 1, chosen, e)
                            };
                        lemma_scenario_no_refusal(taken, *receipt, alice_address@, key@, chosen, e);
                    }
                }
            }
            return Err(DevnetError::Ledger(e));
        },
    };
    proof {
        let consensus = DevnetAuthorityConsensus;
        let (listed, chosen) = choose|listed: Seq<ContributionReceipt>, chosen: Seq<ContributionReceipt>|
            {
                &&& listed.to_multiset() == pending_of(taken.receipts@, 1).to_multiset()
                &&& crate::consensus::sorted_by_id(listed)
                &&& #[trigger] consensus.orders(listed, chosen)
                &&& #[trigger] crate::ledger::mined(taken, *book, 1, chosen, reward)
            };
        let cap = taken.anti_fraud.max_protocol_reward_per_address_epoch.atomic();
        lemma_single_choice(chosen, *receipt);
        lemma_reward_all_keeps_receipts(mine_start(taken), chosen, 1, cap);
        if scenario_taken(taken, *receipt, alice_address@, key@) {
            lemma_scenario_mined(taken, *book, *receipt, alice_address@, key@, chosen, reward);
        }
    }
    Ok(reward)
}

/// Alice's contribution to Bob, confirmed, taken and rewarded in epoch 1.
/// From a fresh devnet book, with distinct addresses, it pays Alice 25 SMD.
fn reward_alice(
    book: &mut LedgerBook,
    alice: &Wallet,
    bob: &Wallet,
    alice_address: &Address,
    bob_address: &Address,
) -> (result: Result<(String, RewardSummary), DevnetError>)
    requires
        old(book).wf(),
        old(book).receipts@.len() == 0,
        alice.network_spec() == NetworkId::Devnet,
        bob.network_spec() == NetworkId::Devnet,
        devnet_address(alice.secret_spec()) == Some(alice_address@),
        devnet_address(bob.secret_spec()) == Some(bob_address@),
        alice_address@.len() == 45,
        bob_address@.len() == 45,
        vstd::utf8::encode_utf8(alice_address@).len() == 45,
        vstd::utf8::encode_utf8(bob_address@).len() == 45,
    ensures
        final(book).wf(),
        !(result matches Err(DevnetError::NotFresh)),
        result matches Ok((id, reward)) ==> {
            let entry = final(book).receipts@[0];
            &&& final(book).transactions == old(book).transactions
            &&& final(book).receipts@.len() == 1
            &&& entry.receipt_id == id
            &&& entry.receipt.provider_address@ == alice_address@
            &&& entry.receipt.receiver_address@ == bob_address@
            &&& entry.receipt.bytes_delivered == 2 * 1_073_741_824
            &&& entry.receipt.service_type == ServiceType::CdcReconstructionUpload
            &&& entry.receipt.epoch == 1
            &&& reward.epoch == 1
            &&& reward.receipts_processed == 1
            &&& reward.user_resource_fees.atomic() == 0
        },
        (fresh_devnet_book(*old(book)) && alice_address@ != bob_address@) ==> {
            &&& result is Ok
            &&& accounts_view(final(book).accounts@) == seq![
                genesis_reserve_account(),
                rewarded_alice(alice_address@, ascii_chars(hex_lower(ed25519_public(alice.secret_spec())))),
            ]
            &&& final(book).supply.reserve_balance.atomic() == GENESIS_RESERVE_ATOMIC
            &&& final(book).network == NetworkId::Devnet
            &&& final(book).transactions@.len() == 0
            &&& result->Ok_0.1.protocol_subsidy.atomic() == 2_500_000_000
        },
{
    let ghost fresh = *book;
    let (receipt_id, receipt) = match take_alice_receipt(book, alice, bob, alice_address, bob_address) {
        Ok(taken) => taken,
        Err(e) => {
            return Err(e);
        },
    };
    let key = Ghost(ascii_chars(hex_lower(ed25519_public(alice.secret_spec()))));
    let reward = match mine_alice_reward(book, &receipt, alice_address, key) {
        Ok(reward) => reward,
        Err(e) => {
            return Err(e);
        },
    };
    Ok((receipt_id, reward))
}

/// Runs the devnet scenario on a fresh book: Alice delivers 2 GiB of CDC
/// reconstruction upload to Bob and is rewarded in epoch 1, then sends Bob
/// 5 SMD, and Bob sends 2 SMD to the permanent reserve. From a fresh devnet
/// book it succeeds, leaving Alice 20 SMD, Bob 3 SMD and the reserve 2 SMD
/// more, unless bech32 gave Alice and Bob one address or SHA-256 gave the
/// two transfers one id.
#[verifier::rlimit(100)]
#[verifier::spinoff_prover]
pub fn run_devnet_scenario(book: &mut LedgerBook) -> (report: Result<DevnetScenarioReport, DevnetError>)
    requires
        old(book).wf(),
    ensures
        final(book).wf(),
        (old(book).transactions@.len() != 0 || old(book).receipts@.len() != 0) ==> report is Err,
        report == Err::<DevnetScenarioReport, DevnetError>(DevnetError::NotFresh) ==> (
        old(book).transactions@.len() != 0 || old(book).receipts@.len() != 0),
        (fresh_devnet_book(*old(book)) && scenario_names_apart()) ==> {
            &&& report is Ok
            &&& report->Ok_0.alice_balance.atomic() == 2_000_000_000
            &&& report->Ok_0.bob_balance.atomic() == 300_000_000
            &&& report->Ok_0.reward.protocol_subsidy.atomic() == 2_500_000_000
            &&& report->Ok_0.ledger_after_restart.accounts == 3
            &&& report->Ok_0.ledger_after_restart.supply.reserve_balance.atomic() == 100_000_200_000_000
        },
        report matches Ok(r) ==> {
            &&& r.label@ == DEVNET_LABEL@
            &&& r.network_id == NetworkId::Devnet
            &&& devnet_address(alice_secret()) == Some(r.alice_address@)
            &&& devnet_address(bob_secret()) == Some(r.bob_address@)
            &&& r.ledger_after_restart.transactions == final(book).transactions@.len()
            &&& r.ledger_after_restart.contribution_receipts == final(book).receipts@.len()
            &&& r.ledger_after_restart.accounts == final(book).accounts@.len()
            &&& r.ledger_after_restart.supply == final(book).supply
            &&& {
                let v = accounts_view(final(book).accounts@);
                let a = position(v, r.alice_address@);
                let b = position(v, r.bob_address@);
                &&& a < v.len() ==> r.alice_balance.atomic() == v[a].balance
                &&& b < v.len() ==> r.bob_balance.atomic() == v[b].balance
            }
            &&& final(book).receipts@.len() == 1
            &&& {
                let entry = final(book).receipts@[0];
                &&& entry.receipt_id == r.contribution_receipt_id
                &&& entry.receipt.provider_address@ == r.alice_address@
                &&& entry.receipt.receiver_address@ == r.bob_address@
                &&& entry.receipt.bytes_delivered == 2 * 1_073_741_824
                &&& entry.receipt.service_type == ServiceType::CdcReconstructionUpload
                &&& entry.receipt.epoch == 1
            }
            &&& r.reward.epoch == 1
            &&& r.reward.receipts_processed == 1
            &&& r.reward.user_resource_fees.atomic() == 0
            &&& final(book).transactions@.len() == 2
            &&& scenario_transfer(
                final(book).transactions@[0],
                r.alice_to_bob_transaction_id@,
                r.alice_address@,
                r.bob_address@,
                500_000_000,
            )
            &&& scenario_transfer(
                final(book).transactions@[1],
                r.bob_to_reserve_transaction_id@,
                r.bob_address@,
                PERMANENT_RESERVE_ADDRESS@,
                200_000_000,
            )
        },
{
    let ghost premise = fresh_devnet_book(*old(book)) && scenario_names_apart();
    let alice = Wallet::from_secret_bytes(NetworkId::Devnet, [0xA1u8; 32]);
    let bob = Wallet::from_secret_bytes(NetworkId::Devnet, [0xB2u8; 32]);
    assert(alice.secret_spec() =~= alice_secret());
    assert(bob.secret_spec() =~= bob_secret());
    proof {
        reveal_strlit("smddev");
        reveal_strlit("SMD_PERMANENT_RESERVE");
    }
    let alice_address = match alice.address() {
        Ok(a) => a,
        Err(e) => {
            return Err(DevnetError::Address(e));
        },
    };
    let bob_address = match bob.address() {
        Ok(a) => a,
        Err(e) => {
            return Err(DevnetError::Address(e));
        },
    };
    let initial = book.status();
    if initial.transactions != 0 || initial.contribution_receipts != 0 {
        return Err(DevnetError::NotFresh);
    }
    let ghost akey = ascii_chars(hex_lower(ed25519_public(alice_secret())));
    let ghost bkey = ascii_chars(hex_lower(ed25519_public(bob_secret())));
    let (receipt_id, reward) = match reward_alice(book, &alice, &bob, &alice_address, &bob_address) {
        Ok(r) => r,
        Err(e) => {
            return Err(e);
        },
    };
    proof {
        reveal_with_fuel(position, 3);
        if premise {
            let v = accounts_view(book.accounts@);
            assert(v.drop_first() =~= seq![rewarded_alice(alice_address@, akey)]);
            assert(position(v, alice_address@) == 1);
        }
    }
    let alice_nonce = book.account(&alice_address).nonce;
    let to_bob = match Transaction::signed(&alice, &bob_address, Amount::from_atomic(500_000_000), alice_nonce, 1, 10) {
        Ok(t) => t,
        Err(e) => {
            return Err(DevnetError::Address(e));
        },
    };
    let ghost rewarded = *book;
    proof {
        if premise {
            lemma_first_transfer(to_bob, alice_address@, bob_address@, akey);
            assert(crate::ledger::transfer_keys(rewarded.transactions@) =~= Seq::empty());
        }
    }
    let alice_tx_id = match book.submit_transaction(&to_bob, 1) {
        Ok(id) => id,
        Err(e) => {
            return Err(DevnetError::Ledger(e));
        },
    };
    let ghost paid = *book;
    proof {
        reveal_with_fuel(position, 4);
        if premise {
            let v = accounts_view(book.accounts@);
            assert(v.drop_first() =~= seq![v[1], v[2]]);
            assert(v.drop_first().drop_first() =~= seq![v[2]]);
            assert(position(v, bob_address@) == 2);
        }
    }
    let bob_nonce = book.account(&bob_address).nonce;
    let reserve = Address::reserve();
    let to_reserve = match Transaction::signed(&bob, &reserve, Amount::from_atomic(200_000_000), bob_nonce, 1, 10) {
        Ok(t) => t,
        Err(e) => {
            return Err(DevnetError::Address(e));
        },
    };
    proof {
        if premise {
            lemma_second_transfer(to_reserve, alice_address@, bob_address@, akey, bkey);
            assert(crate::ledger::transaction_id(to_bob) != crate::ledger::transaction_id(to_reserve));
            let keys = crate::ledger::transfer_keys(paid.transactions@);
            assert(keys.len() == 1);
            assert(keys[0] == (crate::ledger::transaction_id(to_bob), alice_address@, 0u64));
            assert(!crate::ledger::transfer_stored(keys, to_reserve));
        }
    }
    let reserve_tx_id = match book.submit_transaction(&to_reserve, 1) {
        Ok(id) => id,
        Err(e) => {
            return Err(DevnetError::Ledger(e));
        },
    };
    match book.verify_invariants() {
        Ok(()) => {},
        Err(e) => {
            return Err(DevnetError::Ledger(e));
        },
    }
    proof {
        if premise {
            let v = accounts_view(book.accounts@);
            assert(v.drop_first() =~= seq![v[1], v[2]]);
            assert(v.drop_first().drop_first() =~= seq![v[2]]);
            assert(position(v, alice_address@) == 1);
            assert(position(v, bob_address@) == 2);
            crate::amount::Amount::lemma_from_atomic(100_000_200_000_000);
        }
    }
    let alice_account = book.account(&alice_address);
    let bob_account = book.account(&bob_address);
    Ok(
        DevnetScenarioReport {
            label: String::from_str(DEVNET_LABEL),
            network_id: NetworkId::Devnet,
            alice_address: alice_address.to_text(),
            bob_address: bob_address.to_text(),
            contribution_receipt_id: receipt_id,
            reward,
            alice_to_bob_transaction_id: alice_tx_id,
            bob_to_reserve_transaction_id: reserve_tx_id,
            alice_balance: alice_account.balance,
            bob_balance: bob_account.balance,
            ledger_after_restart: book.status(),
        },
    )
}

} // verus!
