//! The devnet account book: balances, nonces and the supply counters, with
//! the rules by which transfers and rewards change them.

use vstd::prelude::*;

use crate::address::{address_check, Address, AddressError, NetworkId, PERMANENT_RESERVE_ADDRESS};
use crate::amount::{Amount, AmountError};
use crate::supply::{
    law_consistent_supply_within_caps, supply_check, supply_consistent, SupplyError, SupplyState, GENESIS_RESERVE_ATOMIC,
    MAX_NETWORK_EMISSION_ATOMIC, MAX_SUPPLY_ATOMIC,
};
use crate::codec::{hex_lower, sha256_digest};
use crate::text::ascii_chars;
use crate::consensus::{sorted_by_id, sort_by_id, ConsensusEngine, ConsensusError};
use crate::contribution::{receipt_check, receipt_json, ContributionReceipt, ReceiptError};
use crate::emission::{emission_phase, quoted_subsidy, EmissionError, VersionedEmissionPolicy};
use crate::pricing::{ProtocolPricingEngine, V01PricingEngine};
use crate::rewards::{score_outcome, AntiFraudPolicy, RewardSummary, ScoreError};
use crate::transaction::{transaction_check, transaction_json, Transaction, TransactionError};

verus! {

/// An account as the ledger reports it.
#[derive(Debug, Clone, PartialEq, Eq)]
pub struct Account {
    pub address: String,
    pub balance: Amount,
    pub nonce: u64,
}

/// An account as the ledger stores it: with the public key it registered.
#[derive(Debug, Clone, PartialEq, Eq)]
pub struct AccountEntry {
    pub address: String,
    pub balance: Amount,
    pub nonce: u64,
    pub public_key: Option<String>,
}

/// An account as mathematics.
pub struct AccountModel {
    pub address: Seq<char>,
    pub balance: u64,
    pub nonce: u64,
    pub public_key: Option<Seq<char>>,
}

pub open spec fn entry_view(e: AccountEntry) -> AccountModel {
    AccountModel {
        address: e.address@,
        balance: e.balance.atomic(),
        nonce: e.nonce,
        public_key: match e.public_key {
            Some(k) => Some(k@),
            None => None,
        },
    }
}

pub open spec fn accounts_view(v: Seq<AccountEntry>) -> Seq<AccountModel> {
    v.map_values(|e: AccountEntry| entry_view(e))
}

/// The position of an address among the accounts, or their number.
pub open spec fn position(accounts: Seq<AccountModel>, address: Seq<char>) -> int
    decreases accounts.len(),
{
    if accounts.len() == 0 {
        0
    } else if accounts[0].address == address {
        0
    } else {
        1 + position(accounts.drop_first(), address)
    }
}

/// The sum of the balances.
pub open spec fn total_balance(accounts: Seq<AccountModel>) -> int
    decreases accounts.len(),
{
    if accounts.len() == 0 {
        0
    } else {
        total_balance(accounts.drop_last()) + accounts.last().balance
    }
}

/// Whether no address has two accounts.
pub open spec fn distinct_addresses(accounts: Seq<AccountModel>) -> bool {
    forall|i: int, j: int|
        0 <= i < j < accounts.len() ==> #[trigger] accounts[i].address != #[trigger] accounts[j].address
}

/// An accepted transaction, with the epoch in which it was accepted.
#[derive(Debug, Clone, PartialEq, Eq)]
pub struct TransactionRecord {
    pub transaction_id: String,
    pub transaction: Transaction,
    pub accepted_epoch: u64,
}

/// A contribution receipt as the ledger keeps it: with its score and, once
/// rewarded, its subsidy, fee and emission phase.
#[derive(Debug, Clone, PartialEq, Eq)]
pub struct ReceiptEntry {
    pub receipt_id: String,
    pub receipt: ContributionReceipt,
    pub score_bytes: u64,
    pub protocol_subsidy: Amount,
    pub user_resource_fee: Amount,
    pub emission_phase: Option<u32>,
    pub rewarded: bool,
}

/// What reward mining produced in one epoch, over all its runs.
#[derive(Debug, Clone, Copy, PartialEq, Eq, Structural)]
pub struct EpochEntry {
    pub epoch: u64,
    pub receipts_processed: u64,
    pub protocol_subsidy: Amount,
}

/// The ledger's book: its network, its accounts, its supply counters, the
/// transactions it accepted, the contribution receipts it holds, what each
/// epoch's reward mining produced, and its anti-fraud policy.
pub struct LedgerBook {
    pub network: NetworkId,
    pub accounts: Vec<AccountEntry>,
    pub supply: SupplyState,
    pub transactions: Vec<TransactionRecord>,
    pub receipts: Vec<ReceiptEntry>,
    pub epochs: Vec<EpochEntry>,
    pub anti_fraud: AntiFraudPolicy,
}

/// Why the ledger refused a change.
#[derive(Debug, Clone, Copy, PartialEq, Eq, Structural)]
pub enum LedgerError {
    /// SMD v0.1 runs only the devnet.
    NotDevnet,
    /// The transaction or receipt belongs to another network.
    WrongNetwork,
    Transaction(TransactionError),
    Address(AddressError),
    /// The permanent reserve may never send.
    ReserveSender,
    /// Sender and receiver are the same.
    SelfTransfer,
    /// A transfer of nothing.
    ZeroAmount,
    /// The current epoch is outside the transaction's window.
    OutsideEpoch,
    /// The sender has no account.
    UnknownSender,
    /// The nonce is not the sender's next.
    Nonce,
    /// The public key is not the one the account registered.
    KeyMismatch,
    Amount(AmountError),
    /// The sender's nonce cannot grow.
    NonceOverflow,
    /// The permanent reserve account does not hold the reserve balance, or
    /// holds less than the genesis reserve.
    ReserveInvariant,
    /// The balances do not add up to the minted supply.
    Conservation,
    /// Two accounts have the same address.
    DuplicateAccount,
    /// The transaction's JSON exceeds 16 KiB.
    TooLarge,
    /// A transfer with the same id, or the same sender and nonce, is already
    /// stored.
    DuplicateTransaction,
    Supply(SupplyError),
    /// A reward would take the network emission past its cap.
    EmissionCap,
    /// The total score of an epoch does not fit in 64 bits.
    ScoreOverflow,
    Receipt(ReceiptError),
    Score(ScoreError),
    Emission(EmissionError),
    /// The receipt's JSON exceeds 16 KiB.
    ReceiptTooLarge,
    /// A count of receipts or of processed receipts does not fit its integer.
    CountOverflow,
    /// A receipt with the same id, session, or provider, receiver and nonce
    /// is already held.
    DuplicateReceipt,
    /// The receipt chosen for a reward is not held.
    UnknownReceipt,
    /// The receipt chosen for a reward was already rewarded.
    NotPending,
    /// The rewarded provider's account registered another public key.
    KeyConflict,
    /// The permanent reserve may never be rewarded.
    ReserveProvider,
    Consensus(ConsensusError),
}

/// Whether two books hold the same network, accounts, supply and records.
pub open spec fn same_book(a: LedgerBook, b: LedgerBook) -> bool {
    &&& a.network == b.network
    &&& a.accounts@ == b.accounts@
    &&& a.supply == b.supply
    &&& a.transactions@ == b.transactions@
    &&& a.receipts@ == b.receipts@
    &&& a.epochs@ == b.epochs@
    &&& a.anti_fraud == b.anti_fraud
}

/// Transactions whose JSON is longer than this (16 KiB) are refused.
pub const MAX_TRANSACTION_JSON_BYTES: usize = 16_384;

impl LedgerBook {
    /// The book's well-formedness: one account per address, consistent
    /// supply counters, balances that add up to the minted supply, and a
    /// permanent reserve account holding the reserve balance, which is never
    /// below the genesis reserve.
    pub open spec fn wf(&self) -> bool {
        let accounts = accounts_view(self.accounts@);
        let r = position(accounts, PERMANENT_RESERVE_ADDRESS@);
        &&& distinct_addresses(accounts)
        &&& supply_consistent(self.supply)
        &&& total_balance(accounts) == self.supply.minted_supply.atomic()
        &&& r < accounts.len()
        &&& accounts[r].balance == self.supply.reserve_balance.atomic()
        &&& self.supply.reserve_balance.atomic() >= GENESIS_RESERVE_ATOMIC
        &&& distinct_transfer_keys(transfer_keys(self.transactions@))
    }
}

/// What identifies a stored transfer: its id, its sender and its nonce.
pub open spec fn transfer_key(r: TransactionRecord) -> (Seq<char>, Seq<char>, u64) {
    (r.transaction_id@, r.transaction.from@, r.transaction.nonce)
}

pub open spec fn transfer_keys(records: Seq<TransactionRecord>) -> Seq<(Seq<char>, Seq<char>, u64)> {
    records.map_values(|r: TransactionRecord| transfer_key(r))
}

/// Whether two stored transfers clash: the same id, or the same sender and nonce.
pub open spec fn keys_clash(a: (Seq<char>, Seq<char>, u64), b: (Seq<char>, Seq<char>, u64)) -> bool {
    a.0 == b.0 || (a.1 == b.1 && a.2 == b.2)
}

/// No two stored transfers clash.
pub open spec fn distinct_transfer_keys(keys: Seq<(Seq<char>, Seq<char>, u64)>) -> bool {
    forall|i: int, j: int| 0 <= i < j < keys.len() ==> !keys_clash(#[trigger] keys[i], #[trigger] keys[j])
}

/// The key a transfer would be stored under.
pub open spec fn new_transfer_key(t: Transaction) -> (Seq<char>, Seq<char>, u64) {
    (transaction_id(t), t.from@, t.nonce)
}

/// Whether a transfer clashes with a stored one.
pub open spec fn transfer_stored(keys: Seq<(Seq<char>, Seq<char>, u64)>, t: Transaction) -> bool {
    exists|k: int| 0 <= k < keys.len() && keys_clash(#[trigger] keys[k], new_transfer_key(t))
}

/// What the ledger answers a transfer: the checks, then a refusal when a
/// transfer with its id, or its sender and nonce, is already stored.
pub open spec fn transfer_outcome(
    accounts: Seq<AccountModel>,
    keys: Seq<(Seq<char>, Seq<char>, u64)>,
    network: NetworkId,
    t: Transaction,
    epoch: u64,
) -> Result<(), LedgerError> {
    match transfer_check(accounts, network, t, epoch) {
        Err(e) => Err(e),
        Ok(()) => if transfer_stored(keys, t) {
            Err(LedgerError::DuplicateTransaction)
        } else {
            Ok(())
        },
    }
}

proof fn lemma_keys_push(records: Seq<TransactionRecord>, r: TransactionRecord)
    ensures
        transfer_keys(records.push(r)) == transfer_keys(records).push(transfer_key(r)),
{
    assert(transfer_keys(records.push(r)) =~= transfer_keys(records).push(transfer_key(r)));
}

proof fn lemma_keys_push_distinct(keys: Seq<(Seq<char>, Seq<char>, u64)>, t: Transaction)
    requires
        distinct_transfer_keys(keys),
        !transfer_stored(keys, t),
    ensures
        distinct_transfer_keys(keys.push(new_transfer_key(t))),
{
    let n = keys.push(new_transfer_key(t));
    assert forall|i: int, j: int| 0 <= i < j < n.len() implies !keys_clash(#[trigger] n[i], #[trigger] n[j]) by {
        if j == keys.len() {
            assert(n[i] == keys[i]);
            if keys_clash(keys[i], new_transfer_key(t)) {
                assert(transfer_stored(keys, t));
            }
        } else {
            assert(n[i] == keys[i] && n[j] == keys[j]);
        }
    }
}

proof fn lemma_position(accounts: Seq<AccountModel>, address: Seq<char>, i: int)
    requires
        0 <= i <= accounts.len(),
        forall|j: int| 0 <= j < i ==> accounts[j].address != address,
        i < accounts.len() ==> accounts[i].address == address,
    ensures
        position(accounts, address) == i,
    decreases i,
{
    if i > 0 {
        let t = accounts.drop_first();
        assert forall|j: int| 0 <= j < i - 1 implies t[j].address != address by {
            assert(t[j] == accounts[j + 1]);
        }
        lemma_position(t, address, i - 1);
    }
}

proof fn lemma_position_bounds(accounts: Seq<AccountModel>, address: Seq<char>)
    ensures
        0 <= position(accounts, address) <= accounts.len(),
        position(accounts, address) < accounts.len() ==> accounts[position(accounts, address)].address == address,
        forall|j: int| 0 <= j < position(accounts, address) ==> accounts[j].address != address,
    decreases accounts.len(),
{
    if accounts.len() > 0 && accounts[0].address != address {
        let t = accounts.drop_first();
        lemma_position_bounds(t, address);
        assert forall|j: int| 0 <= j < position(accounts, address) implies accounts[j].address != address by {
            if j > 0 {
                assert(accounts[j] == t[j - 1]);
            }
        }
    }
}

/// Changing one balance changes the total by the difference.
proof fn lemma_total_update(accounts: Seq<AccountModel>, i: int, a: AccountModel)
    requires
        0 <= i < accounts.len(),
    ensures
        total_balance(accounts.update(i, a)) == total_balance(accounts) - accounts[i].balance + a.balance,
    decreases accounts.len(),
{
    let u = accounts.update(i, a);
    if i == accounts.len() - 1 {
        assert(u.drop_last() =~= accounts.drop_last());
    } else {
        lemma_total_update(accounts.drop_last(), i, a);
        assert(u.drop_last() =~= accounts.drop_last().update(i, a));
    }
}

proof fn lemma_total_push(accounts: Seq<AccountModel>, a: AccountModel)
    ensures
        total_balance(accounts.push(a)) == total_balance(accounts) + a.balance,
{
    assert(accounts.push(a).drop_last() =~= accounts);
}

proof fn lemma_total_bound(accounts: Seq<AccountModel>, i: int)
    requires
        0 <= i < accounts.len(),
    ensures
        accounts[i].balance <= total_balance(accounts),
        total_balance(accounts) >= 0,
    decreases accounts.len(),
{
    lemma_total_nonneg(accounts.drop_last());
    if i < accounts.len() - 1 {
        lemma_total_bound(accounts.drop_last(), i);
    }
}

proof fn lemma_total_nonneg(accounts: Seq<AccountModel>)
    ensures
        total_balance(accounts) >= 0,
    decreases accounts.len(),
{
    if accounts.len() > 0 {
        lemma_total_nonneg(accounts.drop_last());
    }
}

impl LedgerBook {
    /// The book at genesis: the permanent reserve holds the whole genesis supply.
    pub fn genesis(network: NetworkId) -> (book: Result<LedgerBook, LedgerError>)
        ensures
            network != NetworkId::Devnet ==> book == Err::<LedgerBook, LedgerError>(LedgerError::NotDevnet),
            network == NetworkId::Devnet ==> (book matches Ok(b) && b.wf() && b.network == network
                && accounts_view(b.accounts@) == seq![AccountModel {
                    address: PERMANENT_RESERVE_ADDRESS@,
                    balance: GENESIS_RESERVE_ATOMIC,
                    nonce: 0,
                    public_key: None,
                }] && b.supply == SupplyState::genesis_spec() && b.transactions@.len() == 0
                && b.receipts@.len() == 0 && b.epochs@.len() == 0
                && b.anti_fraud.max_same_content_per_pair_epoch == 3
                && b.anti_fraud.max_protocol_reward_per_address_epoch.atomic() == 100_000_000_000),
    {
        if network != NetworkId::Devnet {
            return Err(LedgerError::NotDevnet);
        }
        let mut accounts: Vec<AccountEntry> = Vec::new();
        accounts.push(
            AccountEntry {
                address: String::from_str(PERMANENT_RESERVE_ADDRESS),
                balance: crate::supply::genesis_reserve(),
                nonce: 0,
                public_key: None,
            },
        );
        let book = LedgerBook {
            network,
            accounts,
            supply: SupplyState::genesis(),
            transactions: Vec::new(),
            receipts: Vec::new(),
            epochs: Vec::new(),
            anti_fraud: AntiFraudPolicy::default(),
        };
        proof {
            let v = accounts_view(book.accounts@);
            assert(v =~= seq![AccountModel {
                address: PERMANENT_RESERVE_ADDRESS@,
                balance: GENESIS_RESERVE_ATOMIC,
                nonce: 0,
                public_key: None,
            }]);
            lemma_position(v, PERMANENT_RESERVE_ADDRESS@, 0);
            assert(v.drop_last() =~= Seq::<AccountModel>::empty());
            assert(total_balance(v.drop_last()) == 0);
            assert(v.last().balance == GENESIS_RESERVE_ATOMIC);
            assert(total_balance(v) == GENESIS_RESERVE_ATOMIC);
            assert(distinct_addresses(v));
            assert(supply_consistent(book.supply));
            assert(book.wf());
        }
        Ok(book)
    }

    /// The position of an address's account, or the number of accounts.
    pub fn find(&self, address: &str) -> (index: usize)
        ensures
            index == position(accounts_view(self.accounts@), address@),
            index <= self.accounts@.len(),
    {
        find_account(&self.accounts, address)
    }

    /// An address's account; an address without one has no balance and nonce 0.
    pub fn account(&self, address: &Address) -> (account: Account)
        ensures
            account.address@ == address@,
            ({
                let v = accounts_view(self.accounts@);
                let p = position(v, address@);
                if p < v.len() {
                    account.balance.atomic() == v[p].balance && account.nonce == v[p].nonce
                } else {
                    account.balance.atomic() == 0 && account.nonce == 0
                }
            }),
    {
        let i = self.find(address.as_str());
        if i < self.accounts.len() {
            Account {
                address: address.to_text(),
                balance: self.accounts[i].balance,
                nonce: self.accounts[i].nonce,
            }
        } else {
            Account { address: address.to_text(), balance: Amount::zero(), nonce: 0 }
        }
    }
}


/// The checks a transfer passes once its signature and both addresses were
/// accepted, in the order they are made.
#[verifier::opaque]
pub open spec fn transfer_rules(accounts: Seq<AccountModel>, t: Transaction, epoch: u64) -> Result<(), LedgerError> {
    let from = position(accounts, t.from@);
    let to = position(accounts, t.to@);
    let amount = t.amount.atomic() as int;
    if t.from@ == PERMANENT_RESERVE_ADDRESS@ {
        Err(LedgerError::ReserveSender)
    } else if t.from@ == t.to@ {
        Err(LedgerError::SelfTransfer)
    } else if amount == 0 {
        Err(LedgerError::ZeroAmount)
    } else if t.created_epoch > epoch || t.expiry_epoch < epoch {
        Err(LedgerError::OutsideEpoch)
    } else if from >= accounts.len() {
        Err(LedgerError::UnknownSender)
    } else if accounts[from].nonce != t.nonce {
        Err(LedgerError::Nonce)
    } else if accounts[from].public_key matches Some(k) && k != t.from_public_key@ {
        Err(LedgerError::KeyMismatch)
    } else if accounts[from].balance < amount {
        Err(LedgerError::Amount(AmountError::InsufficientBalance))
    } else if accounts[from].nonce == u64::MAX {
        Err(LedgerError::NonceOverflow)
    } else if to < accounts.len() && accounts[to].balance + amount > u64::MAX {
        Err(LedgerError::Amount(AmountError::Overflow))
    } else if transaction_json(t).len() > MAX_TRANSACTION_JSON_BYTES {
        Err(LedgerError::TooLarge)
    } else {
        Ok(())
    }
}

/// What the ledger answers a transfer in an epoch, in the order the checks
/// are made: its network, its signature, both addresses, then the rules.
#[verifier::opaque]
pub open spec fn transfer_check(
    accounts: Seq<AccountModel>,
    network: NetworkId,
    t: Transaction,
    epoch: u64,
) -> Result<(), LedgerError> {
    if t.network_id != network {
        Err(LedgerError::WrongNetwork)
    } else {
        match transaction_check(t) {
            Err(e) => Err(LedgerError::Transaction(e)),
            Ok(()) => match address_check(t.from@, network) {
                Err(e) => Err(LedgerError::Address(e)),
                Ok(()) => match address_check(t.to@, network) {
                    Err(e) => Err(LedgerError::Address(e)),
                    Ok(()) => transfer_rules(accounts, t, epoch),
                },
            },
        }
    }
}

/// The accounts after an accepted transfer: the sender pays the amount,
/// takes its next nonce and keeps its registered key (or registers the
/// transaction's); the receiver is credited, and opened if it had no account.
#[verifier::opaque]
pub open spec fn transferred(accounts: Seq<AccountModel>, t: Transaction) -> Seq<AccountModel> {
    let from = position(accounts, t.from@);
    let to = position(accounts, t.to@);
    let amount = t.amount.atomic() as int;
    let sender = accounts[from];
    let paid = accounts.update(
        from,
        AccountModel {
            address: sender.address,
            balance: (sender.balance - amount) as u64,
            nonce: (sender.nonce + 1) as u64,
            public_key: match sender.public_key {
                Some(k) => Some(k),
                None => Some(t.from_public_key@),
            },
        },
    );
    if to < accounts.len() {
        paid.update(
            to,
            AccountModel {
                address: paid[to].address,
                balance: (paid[to].balance + amount) as u64,
                nonce: paid[to].nonce,
                public_key: paid[to].public_key,
            },
        )
    } else {
        paid.push(AccountModel { address: t.to@, balance: t.amount.atomic(), nonce: 0, public_key: None })
    }
}

/// The supply counters after an accepted transfer: an amount sent to the
/// permanent reserve moves from circulation into the reserve.
pub open spec fn supply_after_transfer(s: SupplyState, t: Transaction) -> SupplyState {
    if t.to@ == PERMANENT_RESERVE_ADDRESS@ {
        SupplyState {
            minted_supply: s.minted_supply,
            network_emitted_supply: s.network_emitted_supply,
            reserve_balance: Amount::from_atomic_spec(
                (s.reserve_balance.atomic() + t.amount.atomic()) as u64,
            ),
            circulating_supply: Amount::from_atomic_spec(
                (s.circulating_supply.atomic() - t.amount.atomic()) as u64,
            ),
        }
    } else {
        s
    }
}

/// The id of a transaction: lower-case hex SHA-256 of its JSON.
pub open spec fn transaction_id(t: Transaction) -> Seq<char> {
    ascii_chars(hex_lower(sha256_digest(transaction_json(t))))
}

/// Two different accounts hold no more than all accounts together.
proof fn lemma_total_two(accounts: Seq<AccountModel>, i: int, j: int)
    requires
        0 <= i < accounts.len(),
        0 <= j < accounts.len(),
        i != j,
    ensures
        accounts[i].balance + accounts[j].balance <= total_balance(accounts),
    decreases accounts.len(),
{
    let n = accounts.len() - 1;
    lemma_total_nonneg(accounts.drop_last());
    if i == n {
        lemma_total_bound(accounts.drop_last(), j);
    } else if j == n {
        lemma_total_bound(accounts.drop_last(), i);
    } else {
        lemma_total_two(accounts.drop_last(), i, j);
    }
}

/// An update that keeps every address keeps every position.
proof fn lemma_position_update(accounts: Seq<AccountModel>, i: int, a: AccountModel, address: Seq<char>)
    requires
        0 <= i < accounts.len(),
        a.address == accounts[i].address,
    ensures
        position(accounts.update(i, a), address) == position(accounts, address),
{
    let u = accounts.update(i, a);
    lemma_position_bounds(accounts, address);
    let p = position(accounts, address);
    assert forall|j: int| 0 <= j < p implies u[j].address != address by {
        assert(u[j].address == accounts[j].address);
    }
    lemma_position(u, address, p);
}

/// Appending an account keeps the positions of addresses already present.
proof fn lemma_position_push(accounts: Seq<AccountModel>, a: AccountModel, address: Seq<char>)
    requires
        position(accounts, address) < accounts.len(),
    ensures
        position(accounts.push(a), address) == position(accounts, address),
{
    let u = accounts.push(a);
    lemma_position_bounds(accounts, address);
    let p = position(accounts, address);
    assert forall|j: int| 0 <= j < p implies u[j].address != address by {
        assert(u[j] == accounts[j]);
    }
    lemma_position(u, address, p);
}

/// An accepted transfer keeps the book well formed: addresses stay distinct,
/// the balances still add up to the minted supply, and the permanent reserve
/// account still holds the reserve balance.
#[verifier::rlimit(40)]
proof fn lemma_transfer_wf(before: Seq<AccountModel>, supply: SupplyState, t: Transaction)
    requires
        distinct_addresses(before),
        supply_consistent(supply),
        total_balance(before) == supply.minted_supply.atomic(),
        position(before, PERMANENT_RESERVE_ADDRESS@) < before.len(),
        before[position(before, PERMANENT_RESERVE_ADDRESS@)].balance == supply.reserve_balance.atomic(),
        position(before, t.from@) < before.len(),
        t.from@ != PERMANENT_RESERVE_ADDRESS@,
        t.from@ != t.to@,
        before[position(before, t.from@)].balance >= t.amount.atomic(),
        before[position(before, t.from@)].nonce < u64::MAX,
        position(before, t.to@) < before.len() ==> before[position(before, t.to@)].balance
            + t.amount.atomic() <= u64::MAX,
        supply_consistent(supply_after_transfer(supply, t)),
    ensures
        ({
            let after = transferred(before, t);
            let s = supply_after_transfer(supply, t);
            let r = position(before, PERMANENT_RESERVE_ADDRESS@);
            &&& distinct_addresses(after)
            &&& total_balance(after) == s.minted_supply.atomic()
            &&& position(after, PERMANENT_RESERVE_ADDRESS@) == r
            &&& r < after.len()
            &&& after[r].balance == s.reserve_balance.atomic()
        }),
{
    reveal(transferred);
    let from = position(before, t.from@);
    let to = position(before, t.to@);
    let r = position(before, PERMANENT_RESERVE_ADDRESS@);
    let amount = t.amount.atomic() as int;
    lemma_position_bounds(before, t.from@);
    lemma_position_bounds(before, t.to@);
    lemma_position_bounds(before, PERMANENT_RESERVE_ADDRESS@);
    let sender = before[from];
    let new_sender = AccountModel {
        address: sender.address,
        balance: (sender.balance - amount) as u64,
        nonce: (sender.nonce + 1) as u64,
        public_key: match sender.public_key {
            Some(k) => Some(k),
            None => Some(t.from_public_key@),
        },
    };
    let paid = before.update(from, new_sender);
    lemma_total_update(before, from, new_sender);
    lemma_position_update(before, from, new_sender, PERMANENT_RESERVE_ADDRESS@);
    lemma_position_update(before, from, new_sender, t.to@);
    assert(distinct_addresses(paid)) by {
        assert forall|i: int, j: int| 0 <= i < j < paid.len() implies #[trigger] paid[i].address
            != #[trigger] paid[j].address by {
            assert(paid[i].address == before[i].address);
            assert(paid[j].address == before[j].address);
        }
    }
    if to < before.len() {
        let credited = AccountModel {
            address: paid[to].address,
            balance: (paid[to].balance + amount) as u64,
            nonce: paid[to].nonce,
            public_key: paid[to].public_key,
        };
        let after = paid.update(to, credited);
        lemma_total_update(paid, to, credited);
        lemma_position_update(paid, to, credited, PERMANENT_RESERVE_ADDRESS@);
        assert forall|i: int, j: int| 0 <= i < j < after.len() implies #[trigger] after[i].address
            != #[trigger] after[j].address by {
            assert(after[i].address == paid[i].address);
            assert(after[j].address == paid[j].address);
        }
        assert(after =~= transferred(before, t));
        if t.to@ == PERMANENT_RESERVE_ADDRESS@ {
            Amount::lemma_from_atomic((supply.reserve_balance.atomic() + t.amount.atomic()) as u64);
        }
    } else {
        let opened = AccountModel { address: t.to@, balance: t.amount.atomic(), nonce: 0, public_key: None };
        let after = paid.push(opened);
        lemma_total_push(paid, opened);
        lemma_position_push(paid, opened, PERMANENT_RESERVE_ADDRESS@);
        assert forall|i: int, j: int| 0 <= i < j < after.len() implies #[trigger] after[i].address
            != #[trigger] after[j].address by {
            if j == paid.len() {
                assert(after[i] == paid[i]);
            } else {
                assert(after[i] == paid[i]);
                assert(after[j] == paid[j]);
            }
        }
        assert(after =~= transferred(before, t));
    }
}

/// The position of an address's account among accounts, or their number.
fn find_account(accounts: &Vec<AccountEntry>, address: &str) -> (index: usize)
    ensures
        index == position(accounts_view(accounts@), address@),
        index <= accounts@.len(),
{
    let ghost v = accounts_view(accounts@);
    let mut i: usize = 0;
    while i < accounts.len()
        invariant
            v == accounts_view(accounts@),
            i <= v.len(),
            forall|j: int| 0 <= j < i ==> v[j].address != address@,
        decreases v.len() - i,
    {
        if accounts[i].address == String::from_str(address) {
            proof {
                lemma_position(v, address@, i as int);
            }
            return i;
        }
        i = i + 1;
    }
    proof {
        lemma_position(v, address@, i as int);
    }
    i
}

/// Replaces the balance, nonce and key of the account at an index.
fn set_account(accounts: &mut Vec<AccountEntry>, i: usize, balance: Amount, nonce: u64, public_key: Option<String>)
    requires
        i < old(accounts).len(),
    ensures
        final(accounts)@ == old(accounts)@.update(
            i as int,
            (AccountEntry {
                address: old(accounts)@[i as int].address,
                balance: balance,
                nonce: nonce,
                public_key: public_key,
            }),
        ),
{
    let entry = accounts.remove(i);
    let updated = AccountEntry { address: entry.address, balance, nonce, public_key };
    accounts.insert(i, updated);
    assert(final(accounts)@ =~= old(accounts)@.update(
        i as int,
        (AccountEntry {
            address: old(accounts)@[i as int].address,
            balance: balance,
            nonce: nonce,
            public_key: public_key,
        }),
    ));
}

impl LedgerBook {
    /// Applies one transfer in an epoch. A refused transfer leaves the book
    /// as it was.
    #[verifier::rlimit(80)]
    pub fn apply_transaction(&mut self, transaction: &Transaction, epoch: u64) -> (result: Result<
        String,
        LedgerError,
    >)
        requires
            old(self).wf(),
        ensures
            final(self).wf(),
            final(self).network == old(self).network,
            ({
                let before = accounts_view(old(self).accounts@);
                let check = transfer_outcome(
                    before,
                    transfer_keys(old(self).transactions@),
                    old(self).network,
                    *transaction,
                    epoch,
                );
                match result {
                    Err(e) => check == Err::<(), LedgerError>(e) && *final(self) == *old(self),
                    Ok(id) => {
                        &&& check is Ok
                        &&& id@ == transaction_id(*transaction)
                        &&& accounts_view(final(self).accounts@) == transferred(before, *transaction)
                        &&& final(self).supply == supply_after_transfer(old(self).supply, *transaction)
                        &&& final(self).transactions@ == old(self).transactions@.push(
                            (TransactionRecord {
                                transaction_id: id,
                                transaction: *transaction,
                                accepted_epoch: epoch,
                            }),
                        )
                        &&& final(self).receipts == old(self).receipts
                        &&& final(self).epochs == old(self).epochs
                        &&& final(self).anti_fraud == old(self).anti_fraud
                    },
                }
            }),
    {
        let ghost before = accounts_view(self.accounts@);
        reveal(transfer_check);
        reveal(transfer_rules);
        reveal(transferred);
        if transaction.network_id != self.network {
            return Err(LedgerError::WrongNetwork);
        }
        match transaction.verify_signature() {
            Ok(()) => {},
            Err(e) => {
                return Err(LedgerError::Transaction(e));
            },
        }
        let from = match Address::parse_for_network(transaction.from.as_str(), self.network) {
            Ok(a) => a,
            Err(e) => {
                return Err(LedgerError::Address(e));
            },
        };
        let to = match Address::parse_for_network(transaction.to.as_str(), self.network) {
            Ok(a) => a,
            Err(e) => {
                return Err(LedgerError::Address(e));
            },
        };
        if from.is_reserve() {
            return Err(LedgerError::ReserveSender);
        }
        if from.same(&to) {
            return Err(LedgerError::SelfTransfer);
        }
        if transaction.amount.atomic() == 0 {
            return Err(LedgerError::ZeroAmount);
        }
        if transaction.created_epoch > epoch || transaction.expiry_epoch < epoch {
            return Err(LedgerError::OutsideEpoch);
        }
        let from_index = self.find(from.as_str());
        if from_index >= self.accounts.len() {
            return Err(LedgerError::UnknownSender);
        }
        let sender_balance = self.accounts[from_index].balance;
        let sender_nonce = self.accounts[from_index].nonce;
        if sender_nonce != transaction.nonce {
            return Err(LedgerError::Nonce);
        }
        let key_conflict = match &self.accounts[from_index].public_key {
            Some(k) => *k != transaction.from_public_key,
            None => false,
        };
        if key_conflict {
            return Err(LedgerError::KeyMismatch);
        }
        let new_sender_balance = match sender_balance.checked_sub(transaction.amount) {
            Ok(b) => b,
            Err(e) => {
                return Err(LedgerError::Amount(e));
            },
        };
        if sender_nonce == u64::MAX {
            return Err(LedgerError::NonceOverflow);
        }
        let new_nonce = sender_nonce + 1;
        let to_index = self.find(to.as_str());
        let receiver_balance = if to_index < self.accounts.len() {
            self.accounts[to_index].balance
        } else {
            Amount::zero()
        };
        let new_receiver_balance = match receiver_balance.checked_add(transaction.amount) {
            Ok(b) => b,
            Err(e) => {
                return Err(LedgerError::Amount(e));
            },
        };
        let json = transaction.to_json();
        if json.len() > MAX_TRANSACTION_JSON_BYTES {
            return Err(LedgerError::TooLarge);
        }
        let transaction_id = transaction.id();
        if transfer_clashes(&self.transactions, &transaction_id, transaction) {
            return Err(LedgerError::DuplicateTransaction);
        }
        proof {
            lemma_position_bounds(before, transaction.from@);
            lemma_position_bounds(before, transaction.to@);
            lemma_position_bounds(before, PERMANENT_RESERVE_ADDRESS@);
            let r = position(before, PERMANENT_RESERVE_ADDRESS@);
            assert(r != from_index);
            lemma_total_two(before, r as int, from_index as int);
        }
        let supply = if to.is_reserve() {
            let reserve = match self.supply.reserve_balance.checked_add(transaction.amount) {
                Ok(r) => r,
                Err(e) => {
                    return Err(LedgerError::Amount(e));
                },
            };
            match SupplyState::from_components(self.supply.network_emitted_supply, reserve) {
                Ok(s) => s,
                Err(e) => {
                    return Err(LedgerError::Supply(e));
                },
            }
        } else {
            self.supply
        };
        let registered = match &self.accounts[from_index].public_key {
            Some(k) => k.clone(),
            None => transaction.from_public_key.clone(),
        };
        set_account(&mut self.accounts, from_index, new_sender_balance, new_nonce, Some(registered));
        let ghost paid = accounts_view(self.accounts@);
        proof {
            assert(paid =~= before.update(
                from_index as int,
                AccountModel {
                    address: before[from_index as int].address,
                    balance: (before[from_index as int].balance - transaction.amount.atomic()) as u64,
                    nonce: (before[from_index as int].nonce + 1) as u64,
                    public_key: match before[from_index as int].public_key {
                        Some(k) => Some(k),
                        None => Some(transaction.from_public_key@),
                    },
                },
            ));
        }
        if to_index < self.accounts.len() {
            let receiver_nonce = self.accounts[to_index].nonce;
            let receiver_key = match &self.accounts[to_index].public_key {
                Some(k) => Some(k.clone()),
                None => None,
            };
            set_account(&mut self.accounts, to_index, new_receiver_balance, receiver_nonce, receiver_key);
        } else {
            self.accounts.push(
                AccountEntry {
                    address: to.to_text(),
                    balance: new_receiver_balance,
                    nonce: 0,
                    public_key: None,
                },
            );
        }
        self.supply = supply;
        self.transactions.push(
            TransactionRecord {
                transaction_id: transaction_id.clone(),
                transaction: transaction.duplicate(),
                accepted_epoch: epoch,
            },
        );
        proof {
            let after = accounts_view(self.accounts@);
            assert(after =~= transferred(before, *transaction));
            let s0 = old(self).supply;
            let s1 = supply_after_transfer(s0, *transaction);
            if transaction.to@ == PERMANENT_RESERVE_ADDRESS@ {
                Amount::lemma_atomic_determines(self.supply.minted_supply, s1.minted_supply);
                Amount::lemma_from_atomic((s0.reserve_balance.atomic() + transaction.amount.atomic()) as u64);
                Amount::lemma_from_atomic((s0.circulating_supply.atomic() - transaction.amount.atomic()) as u64);
                Amount::lemma_atomic_determines(self.supply.reserve_balance, s1.reserve_balance);
                Amount::lemma_atomic_determines(self.supply.circulating_supply, s1.circulating_supply);
            }
            assert(self.supply == s1);
            lemma_transfer_wf(before, s0, *transaction);
            lemma_keys_push(old(self).transactions@, self.transactions@.last());
            assert(self.transactions@ == old(self).transactions@.push(self.transactions@.last()));
            lemma_keys_push_distinct(transfer_keys(old(self).transactions@), *transaction);
        }
        Ok(transaction_id)
    }
}


/// Whether a transfer clashes with a stored one, by id or by sender and nonce.
fn transfer_clashes(records: &Vec<TransactionRecord>, id: &String, t: &Transaction) -> (clash: bool)
    requires
        id@ == transaction_id(*t),
    ensures
        clash == transfer_stored(transfer_keys(records@), *t),
{
    let ghost keys = transfer_keys(records@);
    let mut i: usize = 0;
    while i < records.len()
        invariant
            i <= records@.len(),
            keys == transfer_keys(records@),
            id@ == transaction_id(*t),
            forall|k: int| 0 <= k < i ==> !keys_clash(#[trigger] keys[k], new_transfer_key(*t)),
        decreases records@.len() - i,
    {
        let r = &records[i];
        assert(keys[i as int] == transfer_key(records@[i as int]));
        if r.transaction_id == *id || (r.transaction.from == t.from && r.transaction.nonce == t.nonce) {
            assert(keys_clash(keys[i as int], new_transfer_key(*t)));
            return true;
        }
        i = i + 1;
    }
    false
}

/// Whether no two stored transfers clash.
fn transfer_keys_distinct(records: &Vec<TransactionRecord>) -> (ok: bool)
    ensures
        ok == distinct_transfer_keys(transfer_keys(records@)),
{
    let ghost keys = transfer_keys(records@);
    let mut j: usize = 0;
    while j < records.len()
        invariant
            j <= records@.len(),
            keys == transfer_keys(records@),
            forall|a: int, b: int| 0 <= a < b < j ==> !keys_clash(#[trigger] keys[a], #[trigger] keys[b]),
        decreases records@.len() - j,
    {
        let mut i: usize = 0;
        while i < j
            invariant
                i <= j < records@.len(),
                keys == transfer_keys(records@),
                forall|a: int| 0 <= a < i ==> !keys_clash(#[trigger] keys[a], keys[j as int]),
            decreases j - i,
        {
            let x = &records[i];
            let y = &records[j];
            assert(keys[i as int] == transfer_key(records@[i as int]));
            assert(keys[j as int] == transfer_key(records@[j as int]));
            if x.transaction_id == y.transaction_id || (x.transaction.from == y.transaction.from
                && x.transaction.nonce == y.transaction.nonce) {
                assert(keys_clash(keys[i as int], keys[j as int]));
                return false;
            }
            i = i + 1;
        }
        j = j + 1;
    }
    true
}

/// What a batch of transfers gives, applied in order: the first refusal, or
/// the accounts and supply after all of them.
pub open spec fn batch_check(
    accounts: Seq<AccountModel>,
    supply: SupplyState,
    keys: Seq<(Seq<char>, Seq<char>, u64)>,
    network: NetworkId,
    txs: Seq<Transaction>,
    epoch: u64,
) -> Result<(Seq<AccountModel>, SupplyState), LedgerError>
    decreases txs.len(),
{
    if txs.len() == 0 {
        Ok((accounts, supply))
    } else {
        match transfer_outcome(accounts, keys, network, txs[0], epoch) {
            Err(e) => Err(e),
            Ok(()) => batch_check(
                transferred(accounts, txs[0]),
                supply_after_transfer(supply, txs[0]),
                keys.push(new_transfer_key(txs[0])),
                network,
                txs.drop_first(),
                epoch,
            ),
        }
    }
}

/// A copy of an account.
fn copy_account(e: &AccountEntry) -> (c: AccountEntry)
    ensures
        c == *e,
{
    AccountEntry {
        address: e.address.clone(),
        balance: e.balance,
        nonce: e.nonce,
        public_key: match &e.public_key {
            Some(k) => Some(k.clone()),
            None => None,
        },
    }
}

/// A copy of a list of accounts.
fn copy_accounts(v: &Vec<AccountEntry>) -> (c: Vec<AccountEntry>)
    ensures
        c@ == v@,
{
    let mut c: Vec<AccountEntry> = Vec::new();
    let mut i: usize = 0;
    while i < v.len()
        invariant
            i <= v@.len(),
            c@ == v@.subrange(0, i as int),
        decreases v@.len() - i,
    {
        c.push(copy_account(&v[i]));
        i = i + 1;
        assert(c@ =~= v@.subrange(0, i as int));
    }
    assert(v@.subrange(0, v@.len() as int) =~= v@);
    c
}

/// A copy of a list of transaction records.
fn copy_records(v: &Vec<TransactionRecord>) -> (c: Vec<TransactionRecord>)
    ensures
        c@ == v@,
{
    let mut c: Vec<TransactionRecord> = Vec::new();
    let mut i: usize = 0;
    while i < v.len()
        invariant
            i <= v@.len(),
            c@ == v@.subrange(0, i as int),
        decreases v@.len() - i,
    {
        c.push(
            TransactionRecord {
                transaction_id: v[i].transaction_id.clone(),
                transaction: v[i].transaction.duplicate(),
                accepted_epoch: v[i].accepted_epoch,
            },
        );
        i = i + 1;
        assert(c@ =~= v@.subrange(0, i as int));
    }
    assert(v@.subrange(0, v@.len() as int) =~= v@);
    c
}

impl LedgerBook {
    /// Applies one transfer, as a batch of one.
    pub fn submit_transaction(&mut self, transaction: &Transaction, epoch: u64) -> (result: Result<
        String,
        LedgerError,
    >)
        requires
            old(self).wf(),
        ensures
            final(self).wf(),
            final(self).network == old(self).network,
            ({
                let before = accounts_view(old(self).accounts@);
                let check = transfer_outcome(
                    before,
                    transfer_keys(old(self).transactions@),
                    old(self).network,
                    *transaction,
                    epoch,
                );
                match result {
                    Err(e) => check == Err::<(), LedgerError>(e) && *final(self) == *old(self),
                    Ok(id) => {
                        &&& check is Ok
                        &&& id@ == transaction_id(*transaction)
                        &&& accounts_view(final(self).accounts@) == transferred(before, *transaction)
                        &&& final(self).supply == supply_after_transfer(old(self).supply, *transaction)
                        &&& final(self).transactions@ == old(self).transactions@.push(
                            (TransactionRecord {
                                transaction_id: id,
                                transaction: *transaction,
                                accepted_epoch: epoch,
                            }),
                        )
                        &&& final(self).receipts == old(self).receipts
                        &&& final(self).epochs == old(self).epochs
                        &&& final(self).anti_fraud == old(self).anti_fraud
                    },
                }
            }),
    {
        self.apply_transaction(transaction, epoch)
    }

    /// Applies transfers in order, all or none: when one is refused, the book
    /// is left as it was before the first.
    #[verifier::rlimit(60)]
    pub fn submit_transactions_atomically(&mut self, transactions: &[Transaction], epoch: u64) -> (result:
        Result<Vec<String>, LedgerError>)
        requires
            old(self).wf(),
        ensures
            final(self).wf(),
            final(self).network == old(self).network,
            ({
                let outcome = batch_check(
                    accounts_view(old(self).accounts@),
                    old(self).supply,
                    transfer_keys(old(self).transactions@),
                    old(self).network,
                    transactions@,
                    epoch,
                );
                match result {
                    Err(e) => outcome == Err::<(Seq<AccountModel>, SupplyState), LedgerError>(e)
                        && same_book(*final(self), *old(self)),
                    Ok(ids) => {
                        &&& outcome == Ok::<(Seq<AccountModel>, SupplyState), LedgerError>(
                            (accounts_view(final(self).accounts@), final(self).supply),
                        )
                        &&& ids@.len() == transactions@.len()
                        &&& final(self).transactions@.len() == old(self).transactions@.len()
                            + transactions@.len()
                        &&& final(self).transactions@.subrange(0, old(self).transactions@.len() as int)
                            == old(self).transactions@
                        &&& final(self).receipts == old(self).receipts
                        &&& final(self).epochs == old(self).epochs
                        &&& final(self).anti_fraud == old(self).anti_fraud
                        &&& forall|k: int|
                            0 <= k < transactions@.len() ==> {
                                let record = #[trigger] final(self).transactions@[old(
                                    self,
                                ).transactions@.len() + k];
                                &&& ids@[k]@ == transaction_id(transactions@[k])
                                &&& record.transaction_id == ids@[k]
                                &&& record.transaction == transactions@[k]
                                &&& record.accepted_epoch == epoch
                            }
                    },
                }
            }),
    {
        let ghost before = accounts_view(self.accounts@);
        let ghost start = self.transactions@.len();
        let saved_accounts = copy_accounts(&self.accounts);
        let saved_supply = self.supply;
        let saved_records = copy_records(&self.transactions);
        let mut ids: Vec<String> = Vec::new();
        let mut k: usize = 0;
        assert(transactions@.subrange(0, transactions@.len() as int) =~= transactions@);
        assert(self.transactions@.subrange(0, start as int) =~= self.transactions@);
        while k < transactions.len()
            invariant
                self.wf(),
                old(self).wf(),
                self.network == old(self).network,
                self.receipts == old(self).receipts,
                self.epochs == old(self).epochs,
                self.anti_fraud == old(self).anti_fraud,
                k <= transactions@.len(),
                ids@.len() == k,
                saved_accounts@ == old(self).accounts@,
                saved_supply == old(self).supply,
                saved_records@ == old(self).transactions@,
                before == accounts_view(old(self).accounts@),
                start == old(self).transactions@.len(),
                batch_check(before, old(self).supply, transfer_keys(old(self).transactions@), self.network, transactions@, epoch)
                    == batch_check(
                    accounts_view(self.accounts@),
                    self.supply,
                    transfer_keys(self.transactions@),
                    self.network,
                    transactions@.subrange(k as int, transactions@.len() as int),
                    epoch,
                ),
                self.transactions@.len() == start + k,
                self.transactions@.subrange(0, start as int) == old(self).transactions@,
                forall|j: int|
                    0 <= j < k ==> {
                        let record = #[trigger] self.transactions@[start + j];
                        &&& ids@[j]@ == transaction_id(transactions@[j])
                        &&& record.transaction_id == ids@[j]
                        &&& record.transaction == transactions@[j]
                        &&& record.accepted_epoch == epoch
                    },
            decreases transactions@.len() - k,
        {
            let ghost rest = transactions@.subrange(k as int, transactions@.len() as int);
            let ghost prior = self.transactions@;
            match self.apply_transaction(&transactions[k], epoch) {
                Ok(id) => {
                    proof {
                        assert(rest[0] == transactions@[k as int]);
                        assert(rest.drop_first() =~= transactions@.subrange(
                            k as int + 1,
                            transactions@.len() as int,
                        ));
                        assert(self.transactions@.subrange(0, start as int) =~= prior.subrange(
                            0,
                            start as int,
                        ));
                        assert forall|j: int| 0 <= j < k implies #[trigger] self.transactions@[start + j]
                            == prior[start + j] by {}
                        lemma_keys_push(prior, self.transactions@.last());
                        assert(self.transactions@ == prior.push(self.transactions@.last()));
                    }
                    ids.push(id);
                },
                Err(e) => {
                    proof {
                        assert(rest[0] == transactions@[k as int]);
                    }
                    self.accounts = saved_accounts;
                    self.supply = saved_supply;
                    self.transactions = saved_records;
                    assert(accounts_view(self.accounts@) == before);
                    return Err(e);
                },
            }
            k = k + 1;
        }
        proof {
            assert(transactions@.subrange(k as int, transactions@.len() as int).len() == 0);
        }
        Ok(ids)
    }
}


/// Receipts longer than this (16 KiB) as JSON are refused.
pub const MAX_RECEIPT_JSON_BYTES: usize = 16_384;

/// The id of a contribution receipt: lower-case hex SHA-256 of its JSON.
#[verifier::opaque]
pub open spec fn receipt_id_of(r: ContributionReceipt) -> Seq<char> {
    ascii_chars(hex_lower(sha256_digest(receipt_json(r))))
}

/// Whether a held receipt is between a provider and a receiver in an epoch.
pub open spec fn same_pair(e: ReceiptEntry, provider: Seq<char>, receiver: Seq<char>, epoch: u64) -> bool {
    &&& e.receipt.provider_address@ == provider
    &&& e.receipt.receiver_address@ == receiver
    &&& e.receipt.epoch == epoch
}

/// The number of held receipts between a provider and a receiver in an epoch.
pub open spec fn pair_count(receipts: Seq<ReceiptEntry>, provider: Seq<char>, receiver: Seq<char>, epoch: u64) -> nat
    decreases receipts.len(),
{
    if receipts.len() == 0 {
        0
    } else {
        pair_count(receipts.drop_last(), provider, receiver, epoch) + if same_pair(
            receipts.last(),
            provider,
            receiver,
            epoch,
        ) {
            1nat
        } else {
            0nat
        }
    }
}

/// The number of held receipts between a provider and a receiver in an
/// epoch for the same content.
pub open spec fn content_count(
    receipts: Seq<ReceiptEntry>,
    provider: Seq<char>,
    receiver: Seq<char>,
    content: Seq<char>,
    epoch: u64,
) -> nat
    decreases receipts.len(),
{
    if receipts.len() == 0 {
        0
    } else {
        content_count(receipts.drop_last(), provider, receiver, content, epoch) + if same_pair(
            receipts.last(),
            provider,
            receiver,
            epoch,
        ) && receipts.last().receipt.content_hash@ == content {
            1nat
        } else {
            0nat
        }
    }
}

/// Whether a held receipt has a receipt's id or session, or its provider,
/// receiver and nonce.
pub open spec fn clashes(e: ReceiptEntry, r: ContributionReceipt) -> bool {
    ||| e.receipt_id@ == receipt_id_of(r)
    ||| e.receipt.session_id@ == r.session_id@
    ||| (e.receipt.provider_address@ == r.provider_address@ && e.receipt.receiver_address@
        == r.receiver_address@ && e.receipt.nonce == r.nonce)
}

/// What the ledger answers a contribution receipt, in the order the checks
/// are made: the receipt itself, its network, its size, the anti-fraud score
/// over the receipts already held, and uniqueness. The answer is its score.
pub open spec fn contribution_check(
    receipts: Seq<ReceiptEntry>,
    network: NetworkId,
    policy: AntiFraudPolicy,
    r: ContributionReceipt,
) -> Result<u64, LedgerError> {
    match receipt_check(r) {
        Err(e) => Err(LedgerError::Receipt(e)),
        Ok(()) => {
            let pair = pair_count(receipts, r.provider_address@, r.receiver_address@, r.epoch);
            let content = content_count(
                receipts,
                r.provider_address@,
                r.receiver_address@,
                r.content_hash@,
                r.epoch,
            );
            if r.network_id != network {
                Err(LedgerError::WrongNetwork)
            } else if receipt_json(r).len() > MAX_RECEIPT_JSON_BYTES {
                Err(LedgerError::ReceiptTooLarge)
            } else if pair > u32::MAX || content > u32::MAX {
                Err(LedgerError::CountOverflow)
            } else {
                match score_outcome(policy, r.bytes_delivered, r.service_type, pair as u32, content as u32) {
                    Err(e) => Err(LedgerError::Score(e)),
                    Ok(score) => if exists|i: int| 0 <= i < receipts.len() && #[trigger] clashes(receipts[i], r) {
                        Err(LedgerError::DuplicateReceipt)
                    } else {
                        Ok(score)
                    },
                }
            }
        },
    }
}

/// Counts the held receipts between a provider and a receiver in an epoch,
/// and those among them for a content.
fn count_prior(receipts: &Vec<ReceiptEntry>, r: &ContributionReceipt) -> (counts: (u64, u64))
    ensures
        counts.0 == pair_count(receipts@, r.provider_address@, r.receiver_address@, r.epoch),
        counts.1 == content_count(
            receipts@,
            r.provider_address@,
            r.receiver_address@,
            r.content_hash@,
            r.epoch,
        ),
{
    let mut pair: u64 = 0;
    let mut content: u64 = 0;
    let mut i: usize = 0;
    while i < receipts.len()
        invariant
            i <= receipts@.len(),
            pair <= i,
            content <= i,
            pair == pair_count(receipts@.subrange(0, i as int), r.provider_address@, r.receiver_address@, r.epoch),
            content == content_count(
                receipts@.subrange(0, i as int),
                r.provider_address@,
                r.receiver_address@,
                r.content_hash@,
                r.epoch,
            ),
        decreases receipts@.len() - i,
    {
        let e = &receipts[i];
        let ghost prefix = receipts@.subrange(0, i as int + 1);
        assert(prefix.drop_last() =~= receipts@.subrange(0, i as int));
        assert(prefix.last() == receipts@[i as int]);
        if e.receipt.provider_address == r.provider_address && e.receipt.receiver_address
            == r.receiver_address && e.receipt.epoch == r.epoch {
            pair = pair + 1;
            if e.receipt.content_hash == r.content_hash {
                content = content + 1;
            }
        }
        i = i + 1;
    }
    assert(receipts@.subrange(0, receipts@.len() as int) =~= receipts@);
    (pair, content)
}

/// Whether a held receipt clashes with a receipt of a given id.
fn find_clash(receipts: &Vec<ReceiptEntry>, r: &ContributionReceipt, id: &String) -> (found: bool)
    requires
        id@ == receipt_id_of(*r),
    ensures
        found == exists|i: int| 0 <= i < receipts@.len() && #[trigger] clashes(receipts@[i], *r),
{
    let mut i: usize = 0;
    while i < receipts.len()
        invariant
            i <= receipts@.len(),
            id@ == receipt_id_of(*r),
            forall|j: int| 0 <= j < i ==> !#[trigger] clashes(receipts@[j], *r),
        decreases receipts@.len() - i,
    {
        let e = &receipts[i];
        if e.receipt_id == *id || e.receipt.session_id == r.session_id || (
        e.receipt.provider_address == r.provider_address && e.receipt.receiver_address
            == r.receiver_address && e.receipt.nonce == r.nonce) {
            assert(clashes(receipts@[i as int], *r));
            return true;
        }
        i = i + 1;
    }
    false
}

impl LedgerBook {
    /// Takes a contribution receipt for reward mining, as pending, with its
    /// anti-fraud score. A refused receipt leaves the book as it was.
    pub fn submit_contribution(&mut self, receipt: &ContributionReceipt) -> (result: Result<
        String,
        LedgerError,
    >)
        requires
            old(self).wf(),
        ensures
            final(self).wf(),
            receipts_keyed(old(self).receipts@) ==> receipts_keyed(final(self).receipts@),
            ({
                let check = contribution_check(
                    old(self).receipts@,
                    old(self).network,
                    old(self).anti_fraud,
                    *receipt,
                );
                match result {
                    Err(e) => check == Err::<u64, LedgerError>(e) && *final(self) == *old(self),
                    Ok(id) => {
                        &&& check is Ok
                        &&& id@ == receipt_id_of(*receipt)
                        &&& final(self).receipts@ == old(self).receipts@.push(
                            (ReceiptEntry {
                                receipt_id: id,
                                receipt: *receipt,
                                score_bytes: check->Ok_0,
                                protocol_subsidy: Amount::from_atomic_spec(0),
                                user_resource_fee: Amount::from_atomic_spec(0),
                                emission_phase: None,
                                rewarded: false,
                            }),
                        )
                        &&& final(self).network == old(self).network
                        &&& final(self).accounts == old(self).accounts
                        &&& final(self).supply == old(self).supply
                        &&& final(self).transactions == old(self).transactions
                        &&& final(self).epochs == old(self).epochs
                        &&& final(self).anti_fraud == old(self).anti_fraud
                    },
                }
            }),
    {
        match receipt.verify() {
            Ok(()) => {},
            Err(e) => {
                return Err(LedgerError::Receipt(e));
            },
        }
        if receipt.network_id != self.network {
            return Err(LedgerError::WrongNetwork);
        }
        let json = receipt.to_json();
        if json.len() > MAX_RECEIPT_JSON_BYTES {
            return Err(LedgerError::ReceiptTooLarge);
        }
        let receipt_id = receipt.id();
        proof {
            reveal(receipt_id_of);
        }
        let (pair, content) = count_prior(&self.receipts, receipt);
        if pair > u32::MAX as u64 || content > u32::MAX as u64 {
            return Err(LedgerError::CountOverflow);
        }
        let score = match self.anti_fraud.score(
            receipt.bytes_delivered,
            receipt.service_type,
            pair as u32,
            content as u32,
        ) {
            Ok(s) => s,
            Err(e) => {
                return Err(LedgerError::Score(e));
            },
        };
        if find_clash(&self.receipts, receipt, &receipt_id) {
            return Err(LedgerError::DuplicateReceipt);
        }
        self.receipts.push(
            ReceiptEntry {
                receipt_id: receipt_id.clone(),
                receipt: receipt.duplicate(),
                score_bytes: score,
                protocol_subsidy: Amount::zero(),
                user_resource_fee: Amount::zero(),
                emission_phase: None,
                rewarded: false,
            },
        );
        proof {
            if receipts_keyed(old(self).receipts@) {
                lemma_keyed_push(old(self).receipts@, self.receipts@.last());
                assert(self.receipts@ =~= old(self).receipts@.push(self.receipts@.last()));
            }
            Amount::lemma_from_atomic(0);
            Amount::lemma_atomic_determines(self.receipts@.last().protocol_subsidy, Amount::from_atomic_spec(0));
            Amount::lemma_atomic_determines(self.receipts@.last().user_resource_fee, Amount::from_atomic_spec(0));
        }
        Ok(receipt_id)
    }
}


/// The position of a receipt id among held receipts, or their number.
pub open spec fn receipt_position(receipts: Seq<ReceiptEntry>, id: Seq<char>) -> int
    decreases receipts.len(),
{
    if receipts.len() == 0 {
        0
    } else if receipts[0].receipt_id@ == id {
        0
    } else {
        1 + receipt_position(receipts.drop_first(), id)
    }
}

proof fn lemma_receipt_position(receipts: Seq<ReceiptEntry>, id: Seq<char>, i: int)
    requires
        0 <= i <= receipts.len(),
        forall|j: int| 0 <= j < i ==> receipts[j].receipt_id@ != id,
        i < receipts.len() ==> receipts[i].receipt_id@ == id,
    ensures
        receipt_position(receipts, id) == i,
    decreases i,
{
    if i > 0 {
        let t = receipts.drop_first();
        assert forall|j: int| 0 <= j < i - 1 implies t[j].receipt_id@ != id by {
            assert(t[j] == receipts[j + 1]);
        }
        lemma_receipt_position(t, id, i - 1);
    }
}

/// The position of a receipt id among held receipts, or their number.
fn find_receipt(receipts: &Vec<ReceiptEntry>, id: &String) -> (index: usize)
    ensures
        index == receipt_position(receipts@, id@),
        index <= receipts@.len(),
{
    let mut i: usize = 0;
    while i < receipts.len()
        invariant
            i <= receipts@.len(),
            forall|j: int| 0 <= j < i ==> receipts@[j].receipt_id@ != id@,
        decreases receipts@.len() - i,
    {
        if receipts[i].receipt_id == *id {
            proof {
                lemma_receipt_position(receipts@, id@, i as int);
            }
            return i;
        }
        i = i + 1;
    }
    proof {
        lemma_receipt_position(receipts@, id@, i as int);
    }
    i
}

/// The subsidy already paid to a provider for receipts of an epoch.
pub open spec fn rewarded_sum(receipts: Seq<ReceiptEntry>, provider: Seq<char>, epoch: u64) -> int
    decreases receipts.len(),
{
    if receipts.len() == 0 {
        0
    } else {
        let e = receipts.last();
        rewarded_sum(receipts.drop_last(), provider, epoch) + if e.rewarded
            && e.receipt.provider_address@ == provider && e.receipt.epoch == epoch {
            e.protocol_subsidy.atomic() as int
        } else {
            0
        }
    }
}

/// The subsidy already paid to a provider for receipts of an epoch.
fn rewarded_total(receipts: &Vec<ReceiptEntry>, provider: &str, epoch: u64) -> (total: u128)
    ensures
        total == rewarded_sum(receipts@, provider@, epoch),
{
    let target = String::from_str(provider);
    let mut total: u128 = 0;
    let mut i: usize = 0;
    while i < receipts.len()
        invariant
            i <= receipts@.len(),
            target@ == provider@,
            total == rewarded_sum(receipts@.subrange(0, i as int), provider@, epoch),
            total <= i * 0xffff_ffff_ffff_ffffu128,
        decreases receipts@.len() - i,
    {
        let e = &receipts[i];
        let ghost prefix = receipts@.subrange(0, i as int + 1);
        assert(prefix.drop_last() =~= receipts@.subrange(0, i as int));
        assert(prefix.last() == receipts@[i as int]);
        if e.rewarded && e.receipt.provider_address == target && e.receipt.epoch == epoch {
            total = total + e.protocol_subsidy.atomic() as u128;
        }
        i = i + 1;
    }
    assert(receipts@.subrange(0, receipts@.len() as int) =~= receipts@);
    total
}

/// What crediting an account answers: the permanent reserve is never
/// credited, a balance may not overflow, and an account that registered a
/// key takes credit only for that key.
#[verifier::opaque]
pub open spec fn credit_check(accounts: Seq<AccountModel>, address: Seq<char>, key: Seq<char>, amount: int) -> Result<(), LedgerError> {
    let p = position(accounts, address);
    if address == PERMANENT_RESERVE_ADDRESS@ {
        Err(LedgerError::ReserveProvider)
    } else if p < accounts.len() && accounts[p].balance + amount > u64::MAX {
        Err(LedgerError::Amount(AmountError::Overflow))
    } else if p < accounts.len() && (accounts[p].public_key matches Some(k) && k != key) {
        Err(LedgerError::KeyConflict)
    } else {
        Ok(())
    }
}

/// The accounts after a credit: the account gains the amount and keeps its
/// key, or registers this one; a missing account is opened.
#[verifier::opaque]
pub open spec fn credited(accounts: Seq<AccountModel>, address: Seq<char>, key: Seq<char>, amount: int) -> Seq<AccountModel> {
    let p = position(accounts, address);
    if p < accounts.len() {
        accounts.update(
            p,
            AccountModel {
                address: accounts[p].address,
                balance: (accounts[p].balance + amount) as u64,
                nonce: accounts[p].nonce,
                public_key: match accounts[p].public_key {
                    Some(k) => Some(k),
                    None => Some(key),
                },
            },
        )
    } else {
        accounts.push(AccountModel { address, balance: amount as u64, nonce: 0, public_key: Some(key) })
    }
}

/// Credits an account, opening it when missing.
fn credit_account(accounts: &mut Vec<AccountEntry>, address: &str, public_key: &String, amount: Amount) -> (result: Result<
    (),
    LedgerError,
>)
    ensures
        match result {
            Err(e) => credit_check(accounts_view(old(accounts)@), address@, public_key@, amount.atomic() as int)
                == Err::<(), LedgerError>(e) && final(accounts)@ == old(accounts)@,
            Ok(()) => credit_check(accounts_view(old(accounts)@), address@, public_key@, amount.atomic() as int) is Ok
                && accounts_view(final(accounts)@) == credited(
                accounts_view(old(accounts)@),
                address@,
                public_key@,
                amount.atomic() as int,
            ),
        },
{
    reveal(credit_check);
    reveal(credited);
    let ghost before = accounts_view(accounts@);
    if String::from_str(address) == String::from_str(PERMANENT_RESERVE_ADDRESS) {
        return Err(LedgerError::ReserveProvider);
    }
    let p = find_account(accounts, address);
    if p < accounts.len() {
        let balance = match accounts[p].balance.checked_add(amount) {
            Ok(b) => b,
            Err(e) => {
                return Err(LedgerError::Amount(e));
            },
        };
        let conflict = match &accounts[p].public_key {
            Some(k) => *k != *public_key,
            None => false,
        };
        if conflict {
            return Err(LedgerError::KeyConflict);
        }
        let nonce = accounts[p].nonce;
        let key = match &accounts[p].public_key {
            Some(k) => k.clone(),
            None => public_key.clone(),
        };
        set_account(accounts, p, balance, nonce, Some(key));
        assert(accounts_view(accounts@) =~= credited(before, address@, public_key@, amount.atomic() as int));
    } else {
        accounts.push(
            AccountEntry {
                address: String::from_str(address),
                balance: amount,
                nonce: 0,
                public_key: Some(public_key.clone()),
            },
        );
        assert(accounts_view(accounts@) =~= credited(before, address@, public_key@, amount.atomic() as int));
    }
    Ok(())
}

/// A credit keeps addresses distinct, adds the amount to the total, and
/// leaves the permanent reserve's account where and as it was.
proof fn lemma_credit(accounts: Seq<AccountModel>, address: Seq<char>, key: Seq<char>, amount: int)
    requires
        distinct_addresses(accounts),
        position(accounts, PERMANENT_RESERVE_ADDRESS@) < accounts.len(),
        credit_check(accounts, address, key, amount) is Ok,
        0 <= amount <= u64::MAX,
    ensures
        ({
            let after = credited(accounts, address, key, amount);
            let r = position(accounts, PERMANENT_RESERVE_ADDRESS@);
            &&& distinct_addresses(after)
            &&& total_balance(after) == total_balance(accounts) + amount
            &&& position(after, PERMANENT_RESERVE_ADDRESS@) == r
            &&& r < after.len()
            &&& after[r] == accounts[r]
        }),
{
    reveal(credit_check);
    reveal(credited);
    let p = position(accounts, address);
    lemma_position_bounds(accounts, address);
    lemma_position_bounds(accounts, PERMANENT_RESERVE_ADDRESS@);
    let after = credited(accounts, address, key, amount);
    if p < accounts.len() {
        let a = after[p];
        lemma_total_update(accounts, p, a);
        lemma_position_update(accounts, p, a, PERMANENT_RESERVE_ADDRESS@);
        assert forall|i: int, j: int| 0 <= i < j < after.len() implies #[trigger] after[i].address
            != #[trigger] after[j].address by {
            assert(after[i].address == accounts[i].address);
            assert(after[j].address == accounts[j].address);
        }
    } else {
        let a = AccountModel { address, balance: amount as u64, nonce: 0, public_key: Some(key) };
        lemma_total_push(accounts, a);
        lemma_position_push(accounts, a, PERMANENT_RESERVE_ADDRESS@);
        assert forall|i: int, j: int| 0 <= i < j < after.len() implies #[trigger] after[i].address
            != #[trigger] after[j].address by {
            assert(after[i] == accounts[i]);
            if j < accounts.len() {
                assert(after[j] == accounts[j]);
            }
        }
    }
}

/// Reward mining's running state: the accounts and receipts as they stand,
/// the network emission, and the totals so far.
pub struct MineState {
    pub accounts: Seq<AccountModel>,
    pub receipts: Seq<ReceiptEntry>,
    pub emitted: u64,
    pub total_score: u64,
    pub total_subsidy: u64,
    pub phase: u32,
}

/// Rewarding one chosen receipt: it must be held and pending; its subsidy is
/// the emission quote for its score, cut to what the provider may still earn
/// in the epoch; the provider is credited and the receipt marked rewarded.
#[verifier::opaque]
pub open spec fn reward_step(s: MineState, c: ContributionReceipt, epoch: u64, cap: u64) -> Result<MineState, LedgerError> {
    let i = receipt_position(s.receipts, receipt_id_of(c));
    let already = rewarded_sum(s.receipts, c.provider_address@, epoch);
    if i >= s.receipts.len() {
        Err(LedgerError::UnknownReceipt)
    } else if s.receipts[i].rewarded {
        Err(LedgerError::NotPending)
    } else if s.emitted > MAX_NETWORK_EMISSION_ATOMIC {
        Err(LedgerError::Emission(EmissionError::EmissionExhausted))
    } else if already > cap {
        Err(LedgerError::Amount(AmountError::InsufficientBalance))
    } else {
        let entry = s.receipts[i];
        let quoted = quoted_subsidy(entry.score_bytes, s.emitted);
        let subsidy = if quoted < cap - already {
            quoted
        } else {
            cap - already
        };
        match credit_check(s.accounts, c.provider_address@, c.provider_public_key@, subsidy) {
            Err(e) => Err(e),
            Ok(()) => if s.emitted + subsidy > u64::MAX {
                Err(LedgerError::Amount(AmountError::Overflow))
            } else if s.emitted + subsidy > MAX_NETWORK_EMISSION_ATOMIC {
                Err(LedgerError::EmissionCap)
            } else if s.total_score + entry.score_bytes > u64::MAX {
                Err(LedgerError::ScoreOverflow)
            } else if s.total_subsidy + subsidy > u64::MAX {
                Err(LedgerError::Amount(AmountError::Overflow))
            } else {
                Ok(
                    MineState {
                        accounts: credited(s.accounts, c.provider_address@, c.provider_public_key@, subsidy),
                        receipts: s.receipts.update(
                            i,
                            ReceiptEntry {
                                receipt_id: entry.receipt_id,
                                receipt: entry.receipt,
                                score_bytes: entry.score_bytes,
                                protocol_subsidy: Amount::from_atomic_spec(subsidy as u64),
                                user_resource_fee: Amount::from_atomic_spec(0),
                                emission_phase: Some(emission_phase(s.emitted)),
                                rewarded: true,
                            },
                        ),
                        emitted: (s.emitted + subsidy) as u64,
                        total_score: (s.total_score + entry.score_bytes) as u64,
                        total_subsidy: (s.total_subsidy + subsidy) as u64,
                        phase: emission_phase(s.emitted),
                    },
                )
            },
        }
    }
}

/// Rewarding the chosen receipts in order: the first refusal, or the state
/// after all of them.
pub open spec fn reward_all(s: MineState, chosen: Seq<ContributionReceipt>, epoch: u64, cap: u64) -> Result<
    MineState,
    LedgerError,
>
    decreases chosen.len(),
{
    if chosen.len() == 0 {
        Ok(s)
    } else {
        match reward_step(s, chosen[0], epoch, cap) {
            Err(e) => Err(e),
            Ok(t) => reward_all(t, chosen.drop_first(), epoch, cap),
        }
    }
}

/// Rewarding receipts keeps every held receipt, with its id, in its place;
/// only the reward fields change.
pub proof fn lemma_reward_all_keeps_receipts(s: MineState, chosen: Seq<ContributionReceipt>, epoch: u64, cap: u64)
    requires
        reward_all(s, chosen, epoch, cap) is Ok,
    ensures
        reward_all(s, chosen, epoch, cap)->Ok_0.receipts.len() == s.receipts.len(),
        forall|k: int|
            0 <= k < s.receipts.len() ==> (#[trigger] reward_all(s, chosen, epoch, cap)->Ok_0.receipts[k]).receipt_id
                == s.receipts[k].receipt_id,
        forall|k: int|
            0 <= k < s.receipts.len() ==> (#[trigger] reward_all(s, chosen, epoch, cap)->Ok_0.receipts[k]).receipt
                == s.receipts[k].receipt,
    decreases chosen.len(),
{
    if chosen.len() > 0 {
        reveal(reward_step);
        let t = reward_step(s, chosen[0], epoch, cap)->Ok_0;
        lemma_receipt_position_nonneg(s.receipts, receipt_id_of(chosen[0]));
        lemma_reward_all_keeps_receipts(t, chosen.drop_first(), epoch, cap);
        let r = reward_all(t, chosen.drop_first(), epoch, cap)->Ok_0;
        assert(reward_all(s, chosen, epoch, cap) == reward_all(t, chosen.drop_first(), epoch, cap));
        assert(t.receipts.len() == s.receipts.len());
        assert forall|k: int| 0 <= k < s.receipts.len() implies r.receipts[k].receipt_id == s.receipts[k].receipt_id
            && r.receipts[k].receipt == s.receipts[k].receipt by {
            assert(r.receipts[k].receipt_id == t.receipts[k].receipt_id);
            assert(r.receipts[k].receipt == t.receipts[k].receipt);
        }
    }
}

/// The state reward mining starts from.
pub open spec fn mine_start(book: LedgerBook) -> MineState {
    MineState {
        accounts: accounts_view(book.accounts@),
        receipts: book.receipts@,
        emitted: book.supply.network_emitted_supply.atomic(),
        total_score: 0,
        total_subsidy: 0,
        phase: emission_phase(book.supply.network_emitted_supply.atomic()),
    }
}

/// The supply counters after reward mining took the emission to `emitted`.
pub open spec fn supply_after_mining(s: SupplyState, emitted: u64) -> SupplyState {
    SupplyState {
        minted_supply: Amount::from_atomic_spec((GENESIS_RESERVE_ATOMIC + emitted) as u64),
        network_emitted_supply: Amount::from_atomic_spec(emitted),
        reserve_balance: s.reserve_balance,
        circulating_supply: Amount::from_atomic_spec(
            (GENESIS_RESERVE_ATOMIC + emitted - s.reserve_balance.atomic()) as u64,
        ),
    }
}

/// The position of an epoch among the epoch entries, or their number.
pub open spec fn epoch_position(epochs: Seq<EpochEntry>, epoch: u64) -> int
    decreases epochs.len(),
{
    if epochs.len() == 0 {
        0
    } else if epochs[0].epoch == epoch {
        0
    } else {
        1 + epoch_position(epochs.drop_first(), epoch)
    }
}

/// The epoch entries after a run of reward mining processed `n` receipts and
/// paid `subsidy`, or nothing when a counter would overflow.
pub open spec fn epochs_after(epochs: Seq<EpochEntry>, epoch: u64, n: u64, subsidy: u64) -> Option<Seq<EpochEntry>> {
    let i = epoch_position(epochs, epoch);
    if i < epochs.len() {
        if epochs[i].receipts_processed + n > u64::MAX || epochs[i].protocol_subsidy.atomic() + subsidy
            > u64::MAX {
            None
        } else {
            Some(
                epochs.update(
                    i,
                    EpochEntry {
                        epoch,
                        receipts_processed: (epochs[i].receipts_processed + n) as u64,
                        protocol_subsidy: Amount::from_atomic_spec(
                            (epochs[i].protocol_subsidy.atomic() + subsidy) as u64,
                        ),
                    },
                ),
            )
        }
    } else {
        Some(
            epochs.push(
                EpochEntry {
                    epoch,
                    receipts_processed: n,
                    protocol_subsidy: Amount::from_atomic_spec(subsidy),
                },
            ),
        )
    }
}


/// The balance facts the book keeps while reward mining runs.
pub open spec fn mining_balanced(accounts: Seq<AccountModel>, emitted: u64, reserve: u64) -> bool {
    let r = position(accounts, PERMANENT_RESERVE_ADDRESS@);
    &&& distinct_addresses(accounts)
    &&& total_balance(accounts) == GENESIS_RESERVE_ATOMIC + emitted
    &&& emitted <= MAX_NETWORK_EMISSION_ATOMIC
    &&& r < accounts.len()
    &&& accounts[r].balance == reserve
}

/// A rewarded receipt keeps the balance facts: the credit is exactly the
/// new emission.
proof fn lemma_reward_step(s: MineState, c: ContributionReceipt, epoch: u64, cap: u64, reserve: u64)
    requires
        mining_balanced(s.accounts, s.emitted, reserve),
        reward_step(s, c, epoch, cap) is Ok,
    ensures
        mining_balanced(reward_step(s, c, epoch, cap)->Ok_0.accounts, reward_step(s, c, epoch, cap)->Ok_0.emitted, reserve),
{
    reveal(reward_step);
    let already = rewarded_sum(s.receipts, c.provider_address@, epoch);
    let i = receipt_position(s.receipts, receipt_id_of(c));
    let quoted = quoted_subsidy(s.receipts[i].score_bytes, s.emitted);
    let subsidy = if quoted < cap - already {
        quoted
    } else {
        cap - already
    };
    crate::emission::law_quote_never_crosses_cap(s.receipts[i].score_bytes, s.emitted);
    lemma_credit(s.accounts, c.provider_address@, c.provider_public_key@, subsidy);
}

/// A copy of a held receipt.
fn copy_receipt(e: &ReceiptEntry) -> (c: ReceiptEntry)
    ensures
        c == *e,
{
    ReceiptEntry {
        receipt_id: e.receipt_id.clone(),
        receipt: e.receipt.duplicate(),
        score_bytes: e.score_bytes,
        protocol_subsidy: e.protocol_subsidy,
        user_resource_fee: e.user_resource_fee,
        emission_phase: e.emission_phase,
        rewarded: e.rewarded,
    }
}

/// A copy of the held receipts.
fn copy_receipts(v: &Vec<ReceiptEntry>) -> (c: Vec<ReceiptEntry>)
    ensures
        c@ == v@,
{
    let mut c: Vec<ReceiptEntry> = Vec::new();
    let mut i: usize = 0;
    while i < v.len()
        invariant
            i <= v@.len(),
            c@ == v@.subrange(0, i as int),
        decreases v@.len() - i,
    {
        c.push(copy_receipt(&v[i]));
        i = i + 1;
        assert(c@ =~= v@.subrange(0, i as int));
    }
    assert(v@.subrange(0, v@.len() as int) =~= v@);
    c
}

/// Marks the receipt at an index rewarded, with its subsidy, fee and phase.
fn mark_rewarded(receipts: &mut Vec<ReceiptEntry>, i: usize, subsidy: Amount, fee: Amount, phase: u32)
    requires
        i < old(receipts).len(),
    ensures
        final(receipts)@ == old(receipts)@.update(
            i as int,
            (ReceiptEntry {
                receipt_id: old(receipts)@[i as int].receipt_id,
                receipt: old(receipts)@[i as int].receipt,
                score_bytes: old(receipts)@[i as int].score_bytes,
                protocol_subsidy: subsidy,
                user_resource_fee: fee,
                emission_phase: Some(phase),
                rewarded: true,
            }),
        ),
{
    let entry = receipts.remove(i);
    let updated = ReceiptEntry {
        receipt_id: entry.receipt_id,
        receipt: entry.receipt,
        score_bytes: entry.score_bytes,
        protocol_subsidy: subsidy,
        user_resource_fee: fee,
        emission_phase: Some(phase),
        rewarded: true,
    };
    receipts.insert(i, updated);
    assert(final(receipts)@ =~= old(receipts)@.update(
        i as int,
        (ReceiptEntry {
            receipt_id: old(receipts)@[i as int].receipt_id,
            receipt: old(receipts)@[i as int].receipt,
            score_bytes: old(receipts)@[i as int].score_bytes,
            protocol_subsidy: subsidy,
            user_resource_fee: fee,
            emission_phase: Some(phase),
            rewarded: true,
        }),
    ));
}

/// The epoch entries after a run of reward mining, or nothing when a counter
/// would overflow.
fn record_epoch(epochs: &Vec<EpochEntry>, epoch: u64, n: u64, subsidy: Amount) -> (after: Option<Vec<EpochEntry>>)
    ensures
        match after {
            Some(v) => epochs_after(epochs@, epoch, n, subsidy.atomic()) == Some(v@),
            None => epochs_after(epochs@, epoch, n, subsidy.atomic()) is None,
        },
{
    let mut i: usize = 0;
    while i < epochs.len()
        invariant
            i <= epochs@.len(),
            forall|j: int| 0 <= j < i ==> epochs@[j].epoch != epoch,
        ensures
            i <= epochs@.len(),
            forall|j: int| 0 <= j < i ==> epochs@[j].epoch != epoch,
            i < epochs@.len() ==> epochs@[i as int].epoch == epoch,
        decreases epochs@.len() - i,
    {
        if epochs[i].epoch == epoch {
            break;
        }
        i = i + 1;
    }
    proof {
        lemma_epoch_position(epochs@, epoch, i as int);
    }
    let mut v: Vec<EpochEntry> = Vec::new();
    let mut j: usize = 0;
    while j < epochs.len()
        invariant
            j <= epochs@.len(),
            v@ == epochs@.subrange(0, j as int),
        decreases epochs@.len() - j,
    {
        v.push(epochs[j]);
        j = j + 1;
        assert(v@ =~= epochs@.subrange(0, j as int));
    }
    assert(v@ =~= epochs@);
    if i < epochs.len() {
        let entry = epochs[i];
        if entry.receipts_processed > u64::MAX - n {
            return None;
        }
        let total = match entry.protocol_subsidy.checked_add(subsidy) {
            Ok(t) => t,
            Err(_) => {
                return None;
            },
        };
        v.set(i, EpochEntry { epoch, receipts_processed: entry.receipts_processed + n, protocol_subsidy: total });
        proof {
            Amount::lemma_from_atomic((entry.protocol_subsidy.atomic() + subsidy.atomic()) as u64);
            Amount::lemma_atomic_determines(total, Amount::from_atomic_spec((entry.protocol_subsidy.atomic() + subsidy.atomic()) as u64));
        }
        Some(v)
    } else {
        v.push(EpochEntry { epoch, receipts_processed: n, protocol_subsidy: subsidy });
        proof {
            Amount::lemma_from_atomic(subsidy.atomic());
            Amount::lemma_atomic_determines(subsidy, Amount::from_atomic_spec(subsidy.atomic()));
        }
        Some(v)
    }
}

proof fn lemma_epoch_position(epochs: Seq<EpochEntry>, epoch: u64, i: int)
    requires
        0 <= i <= epochs.len(),
        forall|j: int| 0 <= j < i ==> epochs[j].epoch != epoch,
        i < epochs.len() ==> epochs[i].epoch == epoch,
    ensures
        epoch_position(epochs, epoch) == i,
    decreases i,
{
    if i > 0 {
        let t = epochs.drop_first();
        assert forall|j: int| 0 <= j < i - 1 implies t[j].epoch != epoch by {
            assert(t[j] == epochs[j + 1]);
        }
        lemma_epoch_position(t, epoch, i - 1);
    }
}


/// Rewards one chosen receipt, on the working copies of the accounts and
/// receipts: the step of reward mining.
#[verifier::rlimit(100)]
fn reward_one(
    accounts: &mut Vec<AccountEntry>,
    receipts: &mut Vec<ReceiptEntry>,
    c: &ContributionReceipt,
    epoch: u64,
    cap: u64,
    emitted: Amount,
    total_score: u64,
    total_subsidy: Amount,
    phase: u32,
    Ghost(reserve): Ghost<u64>,
) -> (result: Result<(Amount, u64, Amount, u32), LedgerError>)
    requires
        mining_balanced(accounts_view(old(accounts)@), emitted.atomic(), reserve),
    ensures
        ({
            let here = MineState {
                accounts: accounts_view(old(accounts)@),
                receipts: old(receipts)@,
                emitted: emitted.atomic(),
                total_score,
                total_subsidy: total_subsidy.atomic(),
                phase,
            };
            match result {
                Err(e) => reward_step(here, *c, epoch, cap) == Err::<MineState, LedgerError>(e),
                Ok((e, ts, sub, ph)) => {
                    &&& reward_step(here, *c, epoch, cap) == Ok::<MineState, LedgerError>(
                        MineState {
                            accounts: accounts_view(final(accounts)@),
                            receipts: final(receipts)@,
                            emitted: e.atomic(),
                            total_score: ts,
                            total_subsidy: sub.atomic(),
                            phase: ph,
                        },
                    )
                    &&& mining_balanced(accounts_view(final(accounts)@), e.atomic(), reserve)
                },
            }
        }),
{
    let ghost here = MineState {
        accounts: accounts_view(accounts@),
        receipts: receipts@,
        emitted: emitted.atomic(),
        total_score,
        total_subsidy: total_subsidy.atomic(),
        phase,
    };
    reveal(reward_step);
    let receipt_id = c.id();
    proof {
        reveal(receipt_id_of);
    }
    let i = find_receipt(receipts, &receipt_id);
    if i >= receipts.len() {
        return Err(LedgerError::UnknownReceipt);
    }
    if receipts[i].rewarded {
        return Err(LedgerError::NotPending);
    }
    let score = receipts[i].score_bytes;
    let quote = match VersionedEmissionPolicy::quote(score, emitted) {
        Ok(q) => q,
        Err(e) => {
            return Err(LedgerError::Emission(e));
        },
    };
    let already = rewarded_total(receipts, c.provider_address.as_str(), epoch);
    if already > cap as u128 {
        return Err(LedgerError::Amount(AmountError::InsufficientBalance));
    }
    let remaining = cap - already as u64;
    let subsidy = if quote.protocol_subsidy.atomic() < remaining {
        quote.protocol_subsidy
    } else {
        Amount::from_atomic(remaining)
    };
    let fee = V01PricingEngine.user_resource_fee(c.bytes_delivered);
    let credit = match subsidy.checked_add(fee) {
        Ok(a) => a,
        Err(e) => {
            return Err(LedgerError::Amount(e));
        },
    };
    match credit_account(accounts, c.provider_address.as_str(), &c.provider_public_key, credit) {
        Ok(()) => {},
        Err(e) => {
            return Err(e);
        },
    }
    let new_emitted = match emitted.checked_add(subsidy) {
        Ok(a) => a,
        Err(e) => {
            return Err(LedgerError::Amount(e));
        },
    };
    if new_emitted.atomic() > MAX_NETWORK_EMISSION_ATOMIC {
        return Err(LedgerError::EmissionCap);
    }
    let new_score = match total_score.checked_add(score) {
        Some(t) => t,
        None => {
            return Err(LedgerError::ScoreOverflow);
        },
    };
    let new_subsidy = match total_subsidy.checked_add(subsidy) {
        Ok(t) => t,
        Err(e) => {
            return Err(LedgerError::Amount(e));
        },
    };
    mark_rewarded(receipts, i, subsidy, fee, quote.phase);
    proof {
        lemma_reward_step(here, *c, epoch, cap, reserve);
        let next = reward_step(here, *c, epoch, cap)->Ok_0;
        Amount::lemma_from_atomic(subsidy.atomic());
        Amount::lemma_from_atomic(0);
        Amount::lemma_atomic_determines(subsidy, Amount::from_atomic_spec(subsidy.atomic()));
        Amount::lemma_atomic_determines(fee, Amount::from_atomic_spec(0));
        assert(receipts@ =~= next.receipts);
    }
    Ok((new_emitted, new_score, new_subsidy, quote.phase))
}

/// Why reward mining over the chosen receipts is refused: rewarding one of
/// them fails, or the epoch's receipt count does not fit its record.
pub open spec fn mine_refusal(book: LedgerBook, epoch: u64, chosen: Seq<ContributionReceipt>, e: LedgerError) -> bool {
    let cap = book.anti_fraud.max_protocol_reward_per_address_epoch.atomic();
    let outcome = reward_all(mine_start(book), chosen, epoch, cap);
    ||| outcome == Err::<MineState, LedgerError>(e)
    ||| (outcome is Ok && e == LedgerError::CountOverflow && epochs_after(
        book.epochs@,
        epoch,
        chosen.len() as u64,
        outcome->Ok_0.total_subsidy,
    ) is None)
}

/// What a successful run of reward mining over the chosen receipts did:
/// the accounts, receipts and emission are those that rewarding them in
/// order gives, the epoch is recorded, and the summary reports the totals.
pub open spec fn mined(
    before: LedgerBook,
    after: LedgerBook,
    epoch: u64,
    chosen: Seq<ContributionReceipt>,
    summary: RewardSummary,
) -> bool {
    let cap = before.anti_fraud.max_protocol_reward_per_address_epoch.atomic();
    let outcome = reward_all(mine_start(before), chosen, epoch, cap);
    let s = outcome->Ok_0;
    &&& outcome is Ok
    &&& epochs_after(before.epochs@, epoch, chosen.len() as u64, s.total_subsidy) == Some(after.epochs@)
    &&& accounts_view(after.accounts@) == s.accounts
    &&& after.receipts@ == s.receipts
    &&& after.supply == supply_after_mining(before.supply, s.emitted)
    &&& after.network == before.network
    &&& after.transactions == before.transactions
    &&& after.anti_fraud == before.anti_fraud
    &&& summary.epoch == epoch
    &&& summary.receipts_processed == chosen.len()
    &&& summary.total_score_bytes == s.total_score
    &&& summary.protocol_subsidy.atomic() == s.total_subsidy
    &&& summary.user_resource_fees.atomic() == 0
    &&& summary.emission_phase == s.phase
}

/// The pending receipts of an epoch, in the order they are held.
pub open spec fn pending_of(receipts: Seq<ReceiptEntry>, epoch: u64) -> Seq<ContributionReceipt>
    decreases receipts.len(),
{
    if receipts.len() == 0 {
        Seq::empty()
    } else {
        let earlier = pending_of(receipts.drop_last(), epoch);
        let e = receipts.last();
        if e.receipt.epoch == epoch && !e.rewarded {
            earlier.push(e.receipt)
        } else {
            earlier
        }
    }
}

impl LedgerBook {
    /// Rewards the chosen receipts of an epoch in the order given, all or
    /// none, then records the epoch and the new supply. A refusal leaves the
    /// book as it was.
    pub fn mine_in_order(&mut self, epoch: u64, chosen: &Vec<ContributionReceipt>) -> (result: Result<
        RewardSummary,
        LedgerError,
    >)
        requires
            old(self).wf(),
        ensures
            final(self).wf(),
            match result {
                Err(e) => same_book(*final(self), *old(self)) && mine_refusal(*old(self), epoch, chosen@, e),
                Ok(summary) => mined(*old(self), *final(self), epoch, chosen@, summary),
            },
    {
        let ghost cap_value = self.anti_fraud.max_protocol_reward_per_address_epoch.atomic();
        let ghost start = mine_start(*self);
        let ghost reserve = self.supply.reserve_balance.atomic();
        let cap = self.anti_fraud.max_protocol_reward_per_address_epoch.atomic();
        let mut accounts = copy_accounts(&self.accounts);
        let mut receipts = copy_receipts(&self.receipts);
        let mut emitted = self.supply.network_emitted_supply;
        let mut total_score: u64 = 0;
        let mut total_subsidy = Amount::zero();
        let mut last_phase = VersionedEmissionPolicy::phase(emitted);
        proof {
            assert(chosen@.subrange(0, chosen@.len() as int) =~= chosen@);
            law_consistent_supply_within_caps(self.supply);
        }
        let mut k: usize = 0;
        while k < chosen.len()
            invariant
                k <= chosen@.len(),
                *self == *old(self),
                old(self).wf(),
                reserve == old(self).supply.reserve_balance.atomic(),
                cap == cap_value,
                cap_value == old(self).anti_fraud.max_protocol_reward_per_address_epoch.atomic(),
                start == mine_start(*old(self)),
                reward_all(start, chosen@, epoch, cap_value) == reward_all(
                    MineState {
                        accounts: accounts_view(accounts@),
                        receipts: receipts@,
                        emitted: emitted.atomic(),
                        total_score,
                        total_subsidy: total_subsidy.atomic(),
                        phase: last_phase,
                    },
                    chosen@.subrange(k as int, chosen@.len() as int),
                    epoch,
                    cap_value,
                ),
                mining_balanced(accounts_view(accounts@), emitted.atomic(), reserve),
            decreases chosen@.len() - k,
        {
            let ghost rest = chosen@.subrange(k as int, chosen@.len() as int);
            proof {
                assert(rest[0] == chosen@[k as int]);
                assert(rest.drop_first() =~= chosen@.subrange(k as int + 1, chosen@.len() as int));
            }
            match reward_one(
                &mut accounts,
                &mut receipts,
                &chosen[k],
                epoch,
                cap,
                emitted,
                total_score,
                total_subsidy,
                last_phase,
                Ghost(reserve),
            ) {
                Ok((e, ts, sub, ph)) => {
                    emitted = e;
                    total_score = ts;
                    total_subsidy = sub;
                    last_phase = ph;
                },
                Err(e) => {
                    return Err(e);
                },
            }
            k = k + 1;
        }
        proof {
            assert(chosen@.subrange(k as int, chosen@.len() as int).len() == 0);
            let r = position(accounts_view(accounts@), PERMANENT_RESERVE_ADDRESS@);
            lemma_position_bounds(accounts_view(accounts@), PERMANENT_RESERVE_ADDRESS@);
            lemma_total_bound(accounts_view(accounts@), r);
        }
        let supply = match SupplyState::from_components(emitted, self.supply.reserve_balance) {
            Ok(s) => s,
            Err(e) => {
                return Err(LedgerError::Supply(e));
            },
        };
        let epochs = match record_epoch(&self.epochs, epoch, chosen.len() as u64, total_subsidy) {
            Some(v) => v,
            None => {
                return Err(LedgerError::CountOverflow);
            },
        };
        self.accounts = accounts;
        self.receipts = receipts;
        self.supply = supply;
        self.epochs = epochs;
        proof {
            let s = supply_after_mining(old(self).supply, emitted.atomic());
            Amount::lemma_from_atomic((GENESIS_RESERVE_ATOMIC + emitted.atomic()) as u64);
            Amount::lemma_from_atomic(emitted.atomic());
            Amount::lemma_from_atomic(
                (GENESIS_RESERVE_ATOMIC + emitted.atomic() - old(self).supply.reserve_balance.atomic()) as u64,
            );
            Amount::lemma_atomic_determines(supply.minted_supply, s.minted_supply);
            Amount::lemma_atomic_determines(supply.network_emitted_supply, s.network_emitted_supply);
            Amount::lemma_atomic_determines(supply.circulating_supply, s.circulating_supply);
            assert(self.supply == s);
        }
        Ok(
            RewardSummary {
                epoch,
                receipts_processed: chosen.len() as u64,
                total_score_bytes: total_score,
                protocol_subsidy: total_subsidy,
                user_resource_fees: Amount::zero(),
                emission_phase: last_phase,
            },
        )
    }
}


impl LedgerBook {
    /// The pending receipts of an epoch, in ascending order of receipt id.
    pub fn pending_receipts(&self, epoch: u64) -> (pending: Vec<ContributionReceipt>)
        ensures
            pending@.to_multiset() == pending_of(self.receipts@, epoch).to_multiset(),
            sorted_by_id(pending@),
    {
        let mut pending: Vec<ContributionReceipt> = Vec::new();
        let mut i: usize = 0;
        while i < self.receipts.len()
            invariant
                i <= self.receipts@.len(),
                pending@ == pending_of(self.receipts@.subrange(0, i as int), epoch),
            decreases self.receipts@.len() - i,
        {
            let ghost prefix = self.receipts@.subrange(0, i as int + 1);
            assert(prefix.drop_last() =~= self.receipts@.subrange(0, i as int));
            assert(prefix.last() == self.receipts@[i as int]);
            if self.receipts[i].receipt.epoch == epoch && !self.receipts[i].rewarded {
                pending.push(self.receipts[i].receipt.duplicate());
            }
            i = i + 1;
        }
        assert(self.receipts@.subrange(0, self.receipts@.len() as int) =~= self.receipts@);
        sort_by_id(&mut pending);
        pending
    }

    /// Mines the rewards of an epoch: lists its pending receipts in id order,
    /// lets the consensus engine choose and order them, and rewards those, all
    /// or none. A refusal leaves the book as it was.
    pub fn mine_rewards<C: ConsensusEngine>(&mut self, epoch: u64, consensus: &C) -> (result: Result<
        RewardSummary,
        LedgerError,
    >)
        requires
            old(self).wf(),
        ensures
            final(self).wf(),
            receipts_keyed(old(self).receipts@) ==> receipts_keyed(final(self).receipts@),
            match result {
                Err(e) => same_book(*final(self), *old(self)) && ((e is Consensus && !consensus.never_refuses()) || exists|
                    listed: Seq<ContributionReceipt>,
                    chosen: Seq<ContributionReceipt>,
                |
                    {
                        &&& listed.to_multiset() == pending_of(old(self).receipts@, epoch).to_multiset()
                        &&& sorted_by_id(listed)
                        &&& #[trigger] consensus.orders(listed, chosen)
                        &&& #[trigger] mine_refusal(*old(self), epoch, chosen, e)
                    }),
                Ok(summary) => exists|listed: Seq<ContributionReceipt>, chosen: Seq<ContributionReceipt>|
                    {
                        &&& listed.to_multiset() == pending_of(old(self).receipts@, epoch).to_multiset()
                        &&& sorted_by_id(listed)
                        &&& #[trigger] consensus.orders(listed, chosen)
                        &&& #[trigger] mined(*old(self), *final(self), epoch, chosen, summary)
                    },
            },
    {
        let mut listed = self.pending_receipts(epoch);
        let ghost pending = listed@;
        match consensus.order_receipts(&mut listed) {
            Ok(()) => {},
            Err(e) => {
                return Err(LedgerError::Consensus(e));
            },
        }
        let result = self.mine_in_order(epoch, &listed);
        proof {
            match result {
                Ok(summary) => {
                    assert(mined(*old(self), *self, epoch, listed@, summary));
                    if receipts_keyed(old(self).receipts@) {
                        lemma_keyed_mined(*old(self), *self, epoch, listed@, summary);
                    }
                },
                Err(e) => {
                    assert(mine_refusal(*old(self), epoch, listed@, e));
                },
            }
        }
        result
    }
}


/// Transfers never mint or burn: the balances still add up to the same total
/// and the minted supply stays as it was.
pub proof fn law_transfer_conserves_supply(
    accounts: Seq<AccountModel>,
    supply: SupplyState,
    network: NetworkId,
    t: Transaction,
    epoch: u64,
)
    requires
        distinct_addresses(accounts),
        total_balance(accounts) == supply.minted_supply.atomic(),
        transfer_check(accounts, network, t, epoch) is Ok,
    ensures
        total_balance(transferred(accounts, t)) == total_balance(accounts),
        supply_after_transfer(supply, t).minted_supply == supply.minted_supply,
        supply_after_transfer(supply, t).network_emitted_supply == supply.network_emitted_supply,
{
    reveal(transfer_check);
    reveal(transfer_rules);
    reveal(transferred);
    let from = position(accounts, t.from@);
    let to = position(accounts, t.to@);
    let amount = t.amount.atomic() as int;
    lemma_position_bounds(accounts, t.from@);
    lemma_position_bounds(accounts, t.to@);
    let sender = accounts[from];
    let new_sender = AccountModel {
        address: sender.address,
        balance: (sender.balance - amount) as u64,
        nonce: (sender.nonce + 1) as u64,
        public_key: match sender.public_key {
            Some(k) => Some(k),
            None => Some(t.from_public_key@),
        },
    };
    let paid = accounts.update(from, new_sender);
    lemma_total_update(accounts, from, new_sender);
    lemma_position_update(accounts, from, new_sender, t.to@);
    if to < accounts.len() {
        let credited_receiver = AccountModel {
            address: paid[to].address,
            balance: (paid[to].balance + amount) as u64,
            nonce: paid[to].nonce,
            public_key: paid[to].public_key,
        };
        lemma_total_update(paid, to, credited_receiver);
    } else {
        lemma_total_push(paid, AccountModel { address: t.to@, balance: t.amount.atomic(), nonce: 0, public_key: None });
    }
}

/// The permanent reserve never shrinks: an accepted transfer leaves it as it
/// was or adds the amount sent to it, and reward mining leaves it as it was.
pub proof fn law_reserve_never_decreases(book: LedgerBook, t: Transaction, epoch: u64, emitted: u64)
    requires
        book.wf(),
        transfer_check(accounts_view(book.accounts@), book.network, t, epoch) is Ok,
    ensures
        supply_after_transfer(book.supply, t).reserve_balance.atomic() >= book.supply.reserve_balance.atomic(),
        t.to@ == PERMANENT_RESERVE_ADDRESS@ ==> supply_after_transfer(book.supply, t).reserve_balance.atomic()
            == book.supply.reserve_balance.atomic() + t.amount.atomic(),
        supply_after_mining(book.supply, emitted).reserve_balance == book.supply.reserve_balance,
{
    reveal(transfer_check);
    reveal(transfer_rules);
    let accounts = accounts_view(book.accounts@);
    lemma_position_bounds(accounts, t.from@);
    lemma_position_bounds(accounts, PERMANENT_RESERVE_ADDRESS@);
    let r = position(accounts, PERMANENT_RESERVE_ADDRESS@);
    let from = position(accounts, t.from@);
    lemma_total_two(accounts, r, from);
    law_consistent_supply_within_caps(book.supply);
    if t.to@ == PERMANENT_RESERVE_ADDRESS@ {
        Amount::lemma_from_atomic((book.supply.reserve_balance.atomic() + t.amount.atomic()) as u64);
    }
}

/// Only reward mining mints: it never lowers the emission, and the minted
/// supply it leaves is the genesis reserve plus the emission, within the cap.
pub proof fn law_only_rewards_mint(before: LedgerBook, chosen: Seq<ContributionReceipt>, epoch: u64)
    requires
        before.wf(),
        reward_all(
            mine_start(before),
            chosen,
            epoch,
            before.anti_fraud.max_protocol_reward_per_address_epoch.atomic(),
        ) is Ok,
    ensures
        ({
            let cap = before.anti_fraud.max_protocol_reward_per_address_epoch.atomic();
            let s = reward_all(mine_start(before), chosen, epoch, cap)->Ok_0;
            let after = supply_after_mining(before.supply, s.emitted);
            &&& s.emitted >= before.supply.network_emitted_supply.atomic()
            &&& s.emitted <= MAX_NETWORK_EMISSION_ATOMIC
            &&& after.minted_supply.atomic() == GENESIS_RESERVE_ATOMIC + s.emitted
            &&& after.minted_supply.atomic() >= before.supply.minted_supply.atomic()
            &&& after.minted_supply.atomic() <= MAX_SUPPLY_ATOMIC
            &&& s.emitted - before.supply.network_emitted_supply.atomic() == s.total_subsidy
        }),
{
    let cap = before.anti_fraud.max_protocol_reward_per_address_epoch.atomic();
    lemma_reward_all_emission(mine_start(before), chosen, epoch, cap);
    let s = reward_all(mine_start(before), chosen, epoch, cap)->Ok_0;
    Amount::lemma_from_atomic((GENESIS_RESERVE_ATOMIC + s.emitted) as u64);
}

/// Rewarding only ever raises the emission, by exactly the subsidy paid,
/// and never past its cap.
proof fn lemma_reward_all_emission(s: MineState, chosen: Seq<ContributionReceipt>, epoch: u64, cap: u64)
    requires
        reward_all(s, chosen, epoch, cap) is Ok,
        s.emitted <= MAX_NETWORK_EMISSION_ATOMIC,
    ensures
        reward_all(s, chosen, epoch, cap)->Ok_0.emitted >= s.emitted,
        reward_all(s, chosen, epoch, cap)->Ok_0.emitted <= MAX_NETWORK_EMISSION_ATOMIC,
        reward_all(s, chosen, epoch, cap)->Ok_0.emitted - s.emitted == reward_all(s, chosen, epoch, cap)->Ok_0.total_subsidy - s.total_subsidy,
    decreases chosen.len(),
{
    if chosen.len() > 0 {
        reveal(reward_step);
        let t = reward_step(s, chosen[0], epoch, cap)->Ok_0;
        lemma_reward_all_emission(t, chosen.drop_first(), epoch, cap);
    }
}

/// An accepted transfer cannot be accepted again: the sender's nonce has
/// moved past it.
pub proof fn law_transfer_not_replayed(accounts: Seq<AccountModel>, network: NetworkId, t: Transaction, epoch: u64)
    requires
        transfer_check(accounts, network, t, epoch) is Ok,
    ensures
        transfer_check(transferred(accounts, t), network, t, epoch) == Err::<(), LedgerError>(LedgerError::Nonce),
{
    reveal(transfer_check);
    reveal(transfer_rules);
    reveal(transferred);
    let from = position(accounts, t.from@);
    lemma_position_bounds(accounts, t.from@);
    lemma_position_bounds(accounts, t.to@);
    let sender = accounts[from];
    let new_sender = AccountModel {
        address: sender.address,
        balance: (sender.balance - t.amount.atomic()) as u64,
        nonce: (sender.nonce + 1) as u64,
        public_key: match sender.public_key {
            Some(k) => Some(k),
            None => Some(t.from_public_key@),
        },
    };
    let paid = accounts.update(from, new_sender);
    let after = transferred(accounts, t);
    lemma_position_update(accounts, from, new_sender, t.from@);
    lemma_position_update(accounts, from, new_sender, t.to@);
    let to = position(accounts, t.to@);
    if to < accounts.len() {
        let credited_receiver = AccountModel {
            address: paid[to].address,
            balance: (paid[to].balance + t.amount.atomic()) as u64,
            nonce: paid[to].nonce,
            public_key: paid[to].public_key,
        };
        lemma_position_update(paid, to, credited_receiver, t.from@);
    } else {
        lemma_position_push(paid, AccountModel { address: t.to@, balance: t.amount.atomic(), nonce: 0, public_key: None }, t.from@);
    }
}

/// A transfer of more than the sender holds is refused, and so no balance
/// can go below zero.
pub proof fn law_no_overdraft(accounts: Seq<AccountModel>, network: NetworkId, t: Transaction, epoch: u64)
    requires
        transfer_check(accounts, network, t, epoch) is Ok,
    ensures
        accounts[position(accounts, t.from@)].balance >= t.amount.atomic(),
        transferred(accounts, t)[position(accounts, t.from@)].balance == accounts[position(accounts, t.from@)].balance - t.amount.atomic(),
{
    reveal(transfer_check);
    reveal(transfer_rules);
    reveal(transferred);
    lemma_position_bounds(accounts, t.from@);
    lemma_position_bounds(accounts, t.to@);
}

/// A receipt the ledger took is never taken again.
pub proof fn law_receipt_not_taken_twice(
    receipts: Seq<ReceiptEntry>,
    network: NetworkId,
    policy: AntiFraudPolicy,
    r: ContributionReceipt,
    entry: ReceiptEntry,
)
    requires
        contribution_check(receipts, network, policy, r) is Ok,
        entry.receipt_id@ == receipt_id_of(r),
    ensures
        contribution_check(receipts.push(entry), network, policy, r) is Err,
{
    let after = receipts.push(entry);
    assert(clashes(after[receipts.len() as int], r));
}

/// With nothing chosen, reward mining emits nothing: the supply stays as it was.
pub proof fn law_no_receipts_no_emission(book: LedgerBook, epoch: u64)
    requires
        book.wf(),
    ensures
        reward_all(
            mine_start(book),
            Seq::empty(),
            epoch,
            book.anti_fraud.max_protocol_reward_per_address_epoch.atomic(),
        ) == Ok::<MineState, LedgerError>(mine_start(book)),
        supply_after_mining(book.supply, book.supply.network_emitted_supply.atomic()) == book.supply,
{
    let s = book.supply;
    let e = s.network_emitted_supply.atomic();
    Amount::lemma_from_atomic((GENESIS_RESERVE_ATOMIC + e) as u64);
    Amount::lemma_from_atomic(e);
    Amount::lemma_from_atomic((GENESIS_RESERVE_ATOMIC + e - s.reserve_balance.atomic()) as u64);
    let after = supply_after_mining(s, e);
    Amount::lemma_atomic_determines(after.minted_supply, s.minted_supply);
    Amount::lemma_atomic_determines(after.network_emitted_supply, s.network_emitted_supply);
    Amount::lemma_atomic_determines(after.circulating_supply, s.circulating_supply);
}

/// The subsidy paid to one provider for one epoch never passes the
/// per-address cap: rewarding a held receipt of that provider and epoch keeps
/// the provider's paid total within it.
#[verifier::rlimit(80)]
pub proof fn law_address_cap(s: MineState, c: ContributionReceipt, epoch: u64, cap: u64)
    requires
        reward_step(s, c, epoch, cap) is Ok,
        s.receipts[receipt_position(s.receipts, receipt_id_of(c))].receipt == c,
        c.epoch == epoch,
    ensures
        rewarded_sum(reward_step(s, c, epoch, cap)->Ok_0.receipts, c.provider_address@, epoch) <= cap,
{
    reveal(reward_step);
    let i = receipt_position(s.receipts, receipt_id_of(c));
    let t = reward_step(s, c, epoch, cap)->Ok_0;
    let already = rewarded_sum(s.receipts, c.provider_address@, epoch);
    let quoted = quoted_subsidy(s.receipts[i].score_bytes, s.emitted);
    let subsidy = if quoted < cap - already { quoted } else { cap - already };
    crate::emission::law_quote_never_crosses_cap(s.receipts[i].score_bytes, s.emitted);
    Amount::lemma_from_atomic(subsidy as u64);
    lemma_receipt_position_nonneg(s.receipts, receipt_id_of(c));
    lemma_rewarded_sum_update(s.receipts, i, t.receipts[i], c.provider_address@, epoch);
}

proof fn lemma_receipt_position_nonneg(receipts: Seq<ReceiptEntry>, id: Seq<char>)
    ensures
        0 <= receipt_position(receipts, id),
    decreases receipts.len(),
{
    if receipts.len() > 0 {
        lemma_receipt_position_nonneg(receipts.drop_first(), id);
    }
}

/// Marking a pending receipt rewarded adds its subsidy to its provider's
/// paid total for its epoch.
proof fn lemma_rewarded_sum_update(receipts: Seq<ReceiptEntry>, i: int, e: ReceiptEntry, provider: Seq<char>, epoch: u64)
    requires
        0 <= i < receipts.len(),
        !receipts[i].rewarded,
    ensures
        rewarded_sum(receipts.update(i, e), provider, epoch) == rewarded_sum(receipts, provider, epoch)
            + if e.rewarded && e.receipt.provider_address@ == provider && e.receipt.epoch == epoch {
            e.protocol_subsidy.atomic() as int
        } else {
            0
        },
    decreases receipts.len(),
{
    let u = receipts.update(i, e);
    if i == receipts.len() - 1 {
        assert(u.drop_last() =~= receipts.drop_last());
    } else {
        lemma_rewarded_sum_update(receipts.drop_last(), i, e, provider, epoch);
        assert(u.drop_last() =~= receipts.drop_last().update(i, e));
    }
}

/// Every well-formed book keeps its accounting identities: the balances add
/// up to the minted supply, which stays within the 12,000,000 SMD cap, and
/// the permanent reserve account holds the reserve balance.
pub proof fn law_book_accounting(book: LedgerBook)
    requires
        book.wf(),
    ensures
        total_balance(accounts_view(book.accounts@)) == book.supply.minted_supply.atomic(),
        book.supply.minted_supply.atomic() <= MAX_SUPPLY_ATOMIC,
        book.supply.minted_supply.atomic() == GENESIS_RESERVE_ATOMIC + book.supply.network_emitted_supply.atomic(),
        book.supply.reserve_balance.atomic() + book.supply.circulating_supply.atomic() == book.supply.minted_supply.atomic(),
        accounts_view(book.accounts@)[position(accounts_view(book.accounts@), PERMANENT_RESERVE_ADDRESS@)].balance
            == book.supply.reserve_balance.atomic(),
{
    law_consistent_supply_within_caps(book.supply);
}


/// What checking a book's invariants answers, in the order the checks are
/// made: the supply counters, the permanent reserve account, conservation,
/// and one account per address.
pub open spec fn invariants_check(book: LedgerBook) -> Result<(), LedgerError> {
    let accounts = accounts_view(book.accounts@);
    let r = position(accounts, PERMANENT_RESERVE_ADDRESS@);
    let reserve = if r < accounts.len() { accounts[r].balance as int } else { 0 };
    match supply_check(book.supply) {
        Err(e) => Err(LedgerError::Supply(e)),
        Ok(()) => if reserve != book.supply.reserve_balance.atomic() || reserve < GENESIS_RESERVE_ATOMIC {
            Err(LedgerError::ReserveInvariant)
        } else if total_balance(accounts) != book.supply.minted_supply.atomic() {
            Err(LedgerError::Conservation)
        } else if !distinct_addresses(accounts) {
            Err(LedgerError::DuplicateAccount)
        } else if !distinct_transfer_keys(transfer_keys(book.transactions@)) {
            Err(LedgerError::DuplicateTransaction)
        } else {
            Ok(())
        },
    }
}

/// The number of receipts not yet rewarded.
pub open spec fn pending_total(receipts: Seq<ReceiptEntry>) -> nat
    decreases receipts.len(),
{
    if receipts.len() == 0 {
        0
    } else {
        pending_total(receipts.drop_last()) + if receipts.last().rewarded {
            0nat
        } else {
            1nat
        }
    }
}

/// The ledger's counts and supply.
#[derive(Debug, Clone, Copy, PartialEq, Eq, Structural)]
pub struct LedgerStatus {
    pub protocol_version: u32,
    pub network_id: NetworkId,
    pub accounts: u64,
    pub transactions: u64,
    pub contribution_receipts: u64,
    pub pending_receipts: u64,
    pub supply: SupplyState,
}

/// A held contribution receipt as the ledger reports it.
#[derive(Debug, Clone, PartialEq, Eq)]
pub struct RewardReceiptRecord {
    pub receipt_id: String,
    pub receipt: ContributionReceipt,
    pub score_bytes: u64,
    pub protocol_subsidy: Amount,
    pub user_resource_fee: Amount,
    pub status: String,
}

/// Listings return at most this many records.
pub const MAX_LISTING: u32 = 1_000;

/// The sum of the balances, which fits in 128 bits.
fn sum_balances(accounts: &Vec<AccountEntry>) -> (sum: u128)
    ensures
        sum == total_balance(accounts_view(accounts@)),
{
    let mut sum: u128 = 0;
    let mut i: usize = 0;
    while i < accounts.len()
        invariant
            i <= accounts@.len(),
            sum == total_balance(accounts_view(accounts@.subrange(0, i as int))),
            sum <= i * 0xffff_ffff_ffff_ffffu128,
        decreases accounts@.len() - i,
    {
        let ghost prefix = accounts_view(accounts@.subrange(0, i as int + 1));
        assert(prefix.drop_last() =~= accounts_view(accounts@.subrange(0, i as int)));
        sum = sum + accounts[i].balance.atomic() as u128;
        i = i + 1;
    }
    assert(accounts@.subrange(0, accounts@.len() as int) =~= accounts@);
    sum
}

/// Whether no two accounts have the same address.
fn addresses_distinct(accounts: &Vec<AccountEntry>) -> (distinct: bool)
    ensures
        distinct == distinct_addresses(accounts_view(accounts@)),
{
    let ghost v = accounts_view(accounts@);
    let mut i: usize = 0;
    while i < accounts.len()
        invariant
            i <= v.len(),
            v == accounts_view(accounts@),
            forall|a: int, b: int| 0 <= a < b < v.len() && a < i ==> #[trigger] v[a].address != #[trigger] v[b].address,
        decreases v.len() - i,
    {
        let mut j: usize = i + 1;
        while j < accounts.len()
            invariant
                i < v.len(),
                i + 1 <= j <= v.len(),
                v == accounts_view(accounts@),
                forall|a: int, b: int| 0 <= a < b < v.len() && a < i ==> #[trigger] v[a].address != #[trigger] v[b].address,
                forall|b: int| i < b < j ==> v[i as int].address != #[trigger] v[b].address,
            decreases v.len() - j,
        {
            if accounts[i].address == accounts[j].address {
                assert(v[i as int].address == v[j as int].address);
                return false;
            }
            j = j + 1;
        }
        i = i + 1;
    }
    true
}

impl LedgerBook {
    pub fn network(&self) -> (network: NetworkId)
        ensures
            network == self.network,
    {
        self.network
    }

    /// Checks the book's invariants; they hold exactly when the book is well formed.
    pub fn verify_invariants(&self) -> (result: Result<(), LedgerError>)
        ensures
            result == invariants_check(*self),
            result is Ok <==> self.wf(),
    {
        match self.supply.validate() {
            Ok(()) => {},
            Err(e) => {
                return Err(LedgerError::Supply(e));
            },
        }
        let ghost v = accounts_view(self.accounts@);
        let r = find_account(&self.accounts, PERMANENT_RESERVE_ADDRESS);
        proof {
            lemma_position_bounds(v, PERMANENT_RESERVE_ADDRESS@);
        }
        let reserve = if r < self.accounts.len() {
            self.accounts[r].balance.atomic()
        } else {
            0
        };
        if reserve != self.supply.reserve_balance.atomic() || reserve < GENESIS_RESERVE_ATOMIC {
            return Err(LedgerError::ReserveInvariant);
        }
        let sum = sum_balances(&self.accounts);
        if sum != self.supply.minted_supply.atomic() as u128 {
            return Err(LedgerError::Conservation);
        }
        if !addresses_distinct(&self.accounts) {
            return Err(LedgerError::DuplicateAccount);
        }
        if !transfer_keys_distinct(&self.transactions) {
            return Err(LedgerError::DuplicateTransaction);
        }
        Ok(())
    }

    /// The ledger's counts and supply.
    pub fn status(&self) -> (status: LedgerStatus)
        ensures
            status.protocol_version == 1,
            status.network_id == self.network,
            status.accounts == self.accounts@.len(),
            status.transactions == self.transactions@.len(),
            status.contribution_receipts == self.receipts@.len(),
            status.pending_receipts == pending_total(self.receipts@),
            status.supply == self.supply,
    {
        let mut pending: u64 = 0;
        let mut i: usize = 0;
        while i < self.receipts.len()
            invariant
                i <= self.receipts@.len(),
                pending <= i,
                pending == pending_total(self.receipts@.subrange(0, i as int)),
            decreases self.receipts@.len() - i,
        {
            let ghost prefix = self.receipts@.subrange(0, i as int + 1);
            assert(prefix.drop_last() =~= self.receipts@.subrange(0, i as int));
            if !self.receipts[i].rewarded {
                pending = pending + 1;
            }
            i = i + 1;
        }
        assert(self.receipts@.subrange(0, self.receipts@.len() as int) =~= self.receipts@);
        LedgerStatus {
            protocol_version: 1,
            network_id: self.network,
            accounts: self.accounts.len() as u64,
            transactions: self.transactions.len() as u64,
            contribution_receipts: self.receipts.len() as u64,
            pending_receipts: pending,
            supply: self.supply,
        }
    }

    /// The newest accepted transactions first, at most `limit` of them and
    /// never more than 1,000.
    pub fn transactions(&self, limit: u32) -> (records: Vec<TransactionRecord>)
        ensures
            ({
                let n = self.transactions@.len();
                let cap = if limit < MAX_LISTING { limit as int } else { MAX_LISTING as int };
                &&& records@.len() == if n < cap { n as int } else { cap }
                &&& forall|k: int| 0 <= k < records@.len() ==> #[trigger] records@[k] == self.transactions@[n - 1 - k]
            }),
    {
        let cap: usize = if limit < MAX_LISTING { limit as usize } else { MAX_LISTING as usize };
        let n = self.transactions.len();
        let mut records: Vec<TransactionRecord> = Vec::new();
        let mut k: usize = 0;
        while k < cap && k < n
            invariant
                n == self.transactions@.len(),
                cap as int == if limit < MAX_LISTING { limit as int } else { MAX_LISTING as int },
                k <= n,
                k <= cap,
                records@.len() == k,
                forall|j: int| 0 <= j < k ==> #[trigger] records@[j] == self.transactions@[n - 1 - j],
            decreases n - k,
        {
            let e = &self.transactions[n - 1 - k];
            records.push(
                TransactionRecord {
                    transaction_id: e.transaction_id.clone(),
                    transaction: e.transaction.duplicate(),
                    accepted_epoch: e.accepted_epoch,
                },
            );
            k = k + 1;
        }
        records
    }

    /// The newest held contribution receipts first, at most `limit` of them
    /// and never more than 1,000, each with its status, "pending" or "rewarded".
    pub fn reward_receipts(&self, limit: u32) -> (records: Vec<RewardReceiptRecord>)
        ensures
            ({
                let n = self.receipts@.len();
                let cap = if limit < MAX_LISTING { limit as int } else { MAX_LISTING as int };
                &&& records@.len() == if n < cap { n as int } else { cap }
                &&& forall|k: int| 0 <= k < records@.len() ==> {
                    let e = self.receipts@[n - 1 - k];
                    let r = #[trigger] records@[k];
                    &&& r.receipt_id == e.receipt_id
                    &&& r.receipt == e.receipt
                    &&& r.score_bytes == e.score_bytes
                    &&& r.protocol_subsidy == e.protocol_subsidy
                    &&& r.user_resource_fee == e.user_resource_fee
                    &&& r.status@ == if e.rewarded { "rewarded"@ } else { "pending"@ }
                }
            }),
    {
        let cap: usize = if limit < MAX_LISTING { limit as usize } else { MAX_LISTING as usize };
        let n = self.receipts.len();
        let mut records: Vec<RewardReceiptRecord> = Vec::new();
        let mut k: usize = 0;
        while k < cap && k < n
            invariant
                n == self.receipts@.len(),
                cap as int == if limit < MAX_LISTING { limit as int } else { MAX_LISTING as int },
                k <= n,
                k <= cap,
                records@.len() == k,
                forall|j: int| 0 <= j < k ==> {
                    let e = self.receipts@[n - 1 - j];
                    let r = #[trigger] records@[j];
                    &&& r.receipt_id == e.receipt_id
                    &&& r.receipt == e.receipt
                    &&& r.score_bytes == e.score_bytes
                    &&& r.protocol_subsidy == e.protocol_subsidy
                    &&& r.user_resource_fee == e.user_resource_fee
                    &&& r.status@ == if e.rewarded { "rewarded"@ } else { "pending"@ }
                },
            decreases n - k,
        {
            let e = &self.receipts[n - 1 - k];
            let status = if e.rewarded {
                String::from_str("rewarded")
            } else {
                String::from_str("pending")
            };
            records.push(
                RewardReceiptRecord {
                    receipt_id: e.receipt_id.clone(),
                    receipt: e.receipt.duplicate(),
                    score_bytes: e.score_bytes,
                    protocol_subsidy: e.protocol_subsidy,
                    user_resource_fee: e.user_resource_fee,
                    status,
                },
            );
            k = k + 1;
        }
        records
    }
}


/// Every held receipt is stored under its own id, and no two share an id.
pub open spec fn receipts_keyed(receipts: Seq<ReceiptEntry>) -> bool {
    &&& forall|k: int| 0 <= k < receipts.len() ==> #[trigger] receipts[k].receipt_id@ == receipt_id_of(receipts[k].receipt)
    &&& forall|j: int, k: int|
        0 <= j < k < receipts.len() ==> #[trigger] receipts[j].receipt_id@ != #[trigger] receipts[k].receipt_id@
}

/// Rewarding chosen receipts in order keeps rewarded receipts rewarded and
/// rewards every held receipt that was chosen.
proof fn lemma_reward_all_rewards(s: MineState, chosen: Seq<ContributionReceipt>, epoch: u64, cap: u64)
    requires
        reward_all(s, chosen, epoch, cap) is Ok,
        receipts_keyed(s.receipts),
    ensures
        forall|k: int|
            0 <= k < s.receipts.len() && s.receipts[k].rewarded ==> (#[trigger] reward_all(s, chosen, epoch, cap)->Ok_0.receipts[k]).rewarded,
        forall|k: int|
            0 <= k < s.receipts.len() && chosen.contains(s.receipts[k].receipt) ==> (#[trigger] reward_all(
                s,
                chosen,
                epoch,
                cap,
            )->Ok_0.receipts[k]).rewarded,
    decreases chosen.len(),
{
    if chosen.len() > 0 {
        reveal(reward_step);
        let c = chosen[0];
        let t = reward_step(s, c, epoch, cap)->Ok_0;
        let i = receipt_position(s.receipts, receipt_id_of(c));
        lemma_receipt_position_nonneg(s.receipts, receipt_id_of(c));
        assert(reward_all(s, chosen, epoch, cap) == reward_all(t, chosen.drop_first(), epoch, cap));
        assert(t.receipts.len() == s.receipts.len());
        assert(receipts_keyed(t.receipts)) by {
            assert forall|k: int| 0 <= k < t.receipts.len() implies t.receipts[k].receipt_id == s.receipts[k].receipt_id
                && t.receipts[k].receipt == s.receipts[k].receipt by {
                if k != i {
                    assert(t.receipts[k] == s.receipts[k]);
                }
            }
        }
        lemma_reward_all_rewards(t, chosen.drop_first(), epoch, cap);
        let out = reward_all(s, chosen, epoch, cap)->Ok_0;
        assert forall|k: int| 0 <= k < s.receipts.len() && s.receipts[k].rewarded implies #[trigger] out.receipts[k].rewarded by {
            if k != i {
                assert(t.receipts[k] == s.receipts[k]);
            }
        }
        assert forall|k: int| 0 <= k < s.receipts.len() && chosen.contains(s.receipts[k].receipt) implies #[trigger] out.receipts[k].rewarded by {
            let rk = s.receipts[k].receipt;
            if rk == c {
                assert(s.receipts[k].receipt_id@ == receipt_id_of(c));
                assert forall|j: int| 0 <= j < k implies s.receipts[j].receipt_id@ != receipt_id_of(c) by {
                    assert(s.receipts[j].receipt_id@ != s.receipts[k].receipt_id@);
                }
                lemma_receipt_position(s.receipts, receipt_id_of(c), k);
                assert(t.receipts[k].rewarded);
            } else {
                let m = choose|m: int| 0 <= m < chosen.len() && chosen[m] == rk;
                assert(m != 0);
                assert(chosen.drop_first()[m - 1] == rk);
                assert(chosen.drop_first().contains(rk));
                if k != i {
                    assert(t.receipts[k] == s.receipts[k]);
                } else {
                    assert(t.receipts[k].receipt == rk);
                }
            }
        }
    }
}

/// A held receipt of an epoch that is not rewarded is pending.
proof fn lemma_pending_contains(receipts: Seq<ReceiptEntry>, epoch: u64, k: int)
    requires
        0 <= k < receipts.len(),
        receipts[k].receipt.epoch == epoch,
        !receipts[k].rewarded,
    ensures
        pending_of(receipts, epoch).contains(receipts[k].receipt),
    decreases receipts.len(),
{
    let earlier = pending_of(receipts.drop_last(), epoch);
    if k == receipts.len() - 1 {
        assert(pending_of(receipts, epoch) == earlier.push(receipts[k].receipt));
        assert(pending_of(receipts, epoch)[earlier.len() as int] == receipts[k].receipt);
    } else {
        assert(receipts.drop_last()[k] == receipts[k]);
        lemma_pending_contains(receipts.drop_last(), epoch, k);
        let m = choose|m: int| 0 <= m < earlier.len() && earlier[m] == receipts[k].receipt;
        if receipts.last().receipt.epoch == epoch && !receipts.last().rewarded {
            assert(pending_of(receipts, epoch)[m] == receipts[k].receipt);
        }
    }
}

/// With every held receipt of an epoch rewarded, nothing of it is pending.
proof fn lemma_pending_empty(receipts: Seq<ReceiptEntry>, epoch: u64)
    requires
        forall|k: int| 0 <= k < receipts.len() && (#[trigger] receipts[k]).receipt.epoch == epoch ==> receipts[k].rewarded,
    ensures
        pending_of(receipts, epoch).len() == 0,
    decreases receipts.len(),
{
    if receipts.len() > 0 {
        assert forall|k: int| 0 <= k < receipts.drop_last().len() && (#[trigger] receipts.drop_last()[k]).receipt.epoch == epoch
            implies receipts.drop_last()[k].rewarded by {
            assert(receipts.drop_last()[k] == receipts[k]);
        }
        lemma_pending_empty(receipts.drop_last(), epoch);
        assert(receipts.last() == receipts[receipts.len() - 1]);
    }
}

/// Mining an epoch over all its pending receipts leaves none of it pending:
/// mining it again in the devnet authority's way (every pending receipt)
/// rewards no receipt, pays nothing, and changes no account or supply.
pub proof fn law_epoch_mined_once(
    before: LedgerBook,
    after: LedgerBook,
    epoch: u64,
    chosen: Seq<ContributionReceipt>,
    summary: RewardSummary,
    again: LedgerBook,
    chosen_again: Seq<ContributionReceipt>,
    summary_again: RewardSummary,
)
    requires
        after.wf(),
        receipts_keyed(before.receipts@),
        chosen.to_multiset() == pending_of(before.receipts@, epoch).to_multiset(),
        mined(before, after, epoch, chosen, summary),
        chosen_again.to_multiset() == pending_of(after.receipts@, epoch).to_multiset(),
        mined(after, again, epoch, chosen_again, summary_again),
    ensures
        pending_of(after.receipts@, epoch).len() == 0,
        summary_again.receipts_processed == 0,
        summary_again.protocol_subsidy.atomic() == 0,
        again.supply == after.supply,
        accounts_view(again.accounts@) == accounts_view(after.accounts@),
{
    let cap = before.anti_fraud.max_protocol_reward_per_address_epoch.atomic();
    let start = mine_start(before);
    let out = reward_all(start, chosen, epoch, cap)->Ok_0;
    lemma_reward_all_keeps_receipts(start, chosen, epoch, cap);
    lemma_reward_all_rewards(start, chosen, epoch, cap);
    chosen.to_multiset_ensures();
    pending_of(before.receipts@, epoch).to_multiset_ensures();
    assert forall|k: int| 0 <= k < after.receipts@.len() && (#[trigger] after.receipts@[k]).receipt.epoch == epoch
        implies after.receipts@[k].rewarded by {
        assert(after.receipts@[k] == out.receipts[k]);
        assert(out.receipts[k].receipt == before.receipts@[k].receipt);
        if !before.receipts@[k].rewarded {
            lemma_pending_contains(before.receipts@, epoch, k);
            assert(pending_of(before.receipts@, epoch).to_multiset().count(before.receipts@[k].receipt) > 0);
            assert(chosen.contains(before.receipts@[k].receipt));
        }
    }
    lemma_pending_empty(after.receipts@, epoch);
    chosen_again.to_multiset_ensures();
    pending_of(after.receipts@, epoch).to_multiset_ensures();
    assert(chosen_again =~= Seq::<ContributionReceipt>::empty());
    law_no_receipts_no_emission(after, epoch);
    Amount::lemma_from_atomic(0);
}

/// Holding one more receipt under its own, new id keeps receipts keyed.
proof fn lemma_keyed_push(receipts: Seq<ReceiptEntry>, entry: ReceiptEntry)
    requires
        receipts_keyed(receipts),
        entry.receipt_id@ == receipt_id_of(entry.receipt),
        forall|i: int| 0 <= i < receipts.len() ==> !clashes(#[trigger] receipts[i], entry.receipt),
    ensures
        receipts_keyed(receipts.push(entry)),
{
    let n = receipts.push(entry);
    assert forall|j: int, k: int| 0 <= j < k < n.len() implies #[trigger] n[j].receipt_id@ != #[trigger] n[k].receipt_id@ by {
        if k == receipts.len() {
            assert(!clashes(receipts[j], entry.receipt));
        } else {
            assert(n[j] == receipts[j] && n[k] == receipts[k]);
        }
    }
    assert forall|k: int| 0 <= k < n.len() implies #[trigger] n[k].receipt_id@ == receipt_id_of(n[k].receipt) by {
        if k < receipts.len() {
            assert(n[k] == receipts[k]);
        }
    }
}

/// Reward mining keeps receipts keyed.
proof fn lemma_keyed_mined(before: LedgerBook, after: LedgerBook, epoch: u64, chosen: Seq<ContributionReceipt>, summary: RewardSummary)
    requires
        receipts_keyed(before.receipts@),
        mined(before, after, epoch, chosen, summary),
    ensures
        receipts_keyed(after.receipts@),
{
    let cap = before.anti_fraud.max_protocol_reward_per_address_epoch.atomic();
    lemma_reward_all_keeps_receipts(mine_start(before), chosen, epoch, cap);
}
} // verus!
