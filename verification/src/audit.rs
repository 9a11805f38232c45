//! The ledger's state root: SHA-256 over every table of the book, each row
//! in key order and each field framed by its length.

use vstd::prelude::*;
use vstd::string::StringSliceAdditionalSpecFns;

use crate::address::{network_name, NetworkId};
use crate::consensus::{
    bytes_before, bytes_less, lemma_bytes_before_irreflexive, lemma_bytes_before_total, lemma_bytes_before_transitive,
};
use crate::codec::{hex_lower, sha256_digest};
use crate::contribution::receipt_json;
use crate::crypto::sha256_hex;
use crate::ledger::{
    AccountEntry, EpochEntry, LedgerBook, LedgerError, ReceiptEntry, TransactionRecord,
};
use crate::supply::SupplyState;
use crate::text::ascii_chars;
use crate::tracker::{be_bytes, push_be};
use crate::transaction::{transaction_json, utf8};

verus! {

/// A field as the state root frames it: its length in eight big-endian
/// bytes, then its bytes.
pub open spec fn field(b: Seq<u8>) -> Seq<u8> {
    be_bytes(b.len(), 8) + b
}

/// A number as a framed field of its eight big-endian bytes.
pub open spec fn number_field(v: u64) -> Seq<u8> {
    field(be_bytes(v as nat, 8))
}

/// An optional text: `some` and the text, or `none`.
pub open spec fn optional_text_field(v: Option<Seq<char>>) -> Seq<u8> {
    match v {
        Some(t) => field("some".spec_bytes()) + field(utf8(t)),
        None => field("none".spec_bytes()),
    }
}

/// An optional number: `some` and the number, or `none`.
pub open spec fn optional_number_field(v: Option<u32>) -> Seq<u8> {
    match v {
        Some(p) => field("some".spec_bytes()) + number_field(p as u64),
        None => field("none".spec_bytes()),
    }
}

pub open spec fn account_fields(e: AccountEntry) -> Seq<u8> {
    field(utf8(e.address@)) + number_field(e.balance.atomic()) + number_field(e.nonce) + optional_text_field(
        match e.public_key {
            Some(k) => Some(k@),
            None => None,
        },
    )
}

#[verifier::opaque]
pub open spec fn transaction_fields(r: TransactionRecord) -> Seq<u8> {
    field(utf8(r.transaction_id@)) + field(transaction_json(r.transaction)) + field(
        utf8(r.transaction.from@),
    ) + field(utf8(r.transaction.to@)) + number_field(r.transaction.amount.atomic()) + number_field(
        r.transaction.nonce,
    ) + number_field(r.accepted_epoch)
}

/// A receipt's status text.
pub open spec fn status_text(rewarded: bool) -> Seq<u8> {
    if rewarded {
        "rewarded".spec_bytes()
    } else {
        "pending".spec_bytes()
    }
}

/// A held receipt's text fields: id, session, provider, receiver, content
/// hash, stored JSON and status.
pub open spec fn receipt_text_fields(e: ReceiptEntry) -> Seq<u8> {
    field(utf8(e.receipt_id@)) + field(utf8(e.receipt.session_id@)) + field(
        utf8(e.receipt.provider_address@),
    ) + field(utf8(e.receipt.receiver_address@)) + field(utf8(e.receipt.content_hash@)) + field(
        stored_receipt_json(e.receipt),
    ) + field(status_text(e.rewarded))
}

/// A held receipt's number fields: epoch, nonce, score, subsidy, fee and phase.
pub open spec fn receipt_number_fields(e: ReceiptEntry) -> Seq<u8> {
    number_field(e.receipt.epoch) + number_field(e.receipt.nonce) + number_field(e.score_bytes)
        + number_field(e.protocol_subsidy.atomic()) + number_field(e.user_resource_fee.atomic())
        + optional_number_field(e.emission_phase)
}

pub open spec fn receipt_fields(e: ReceiptEntry) -> Seq<u8> {
    receipt_text_fields(e) + receipt_number_fields(e)
}

/// A receipt's JSON as the ledger stores it.
#[verifier::opaque]
pub open spec fn stored_receipt_json(r: crate::contribution::ContributionReceipt) -> Seq<u8> {
    receipt_json(r)
}

pub open spec fn epoch_fields(e: EpochEntry) -> Seq<u8> {
    number_field(e.epoch) + number_field(e.receipts_processed) + number_field(
        e.protocol_subsidy.atomic(),
    )
}

pub open spec fn account_row() -> spec_fn(AccountEntry) -> Seq<u8> {
    |e: AccountEntry| account_fields(e)
}

pub open spec fn transaction_row() -> spec_fn(TransactionRecord) -> Seq<u8> {
    |r: TransactionRecord| transaction_fields(r)
}

pub open spec fn receipt_row() -> spec_fn(ReceiptEntry) -> Seq<u8> {
    |e: ReceiptEntry| receipt_fields(e)
}

pub open spec fn epoch_row() -> spec_fn(EpochEntry) -> Seq<u8> {
    |e: EpochEntry| epoch_fields(e)
}

/// The rows of a table in a given order, each as `fields` frames it.
pub open spec fn section<T>(rows: Seq<T>, order: Seq<usize>, fields: spec_fn(T) -> Seq<u8>) -> Seq<u8>
    decreases order.len(),
{
    if order.len() == 0 {
        Seq::empty()
    } else {
        section(rows, order.drop_last(), fields) + fields(rows[order.last() as int])
    }
}

/// Whether `order` lists every index below `n` once, in ascending order of
/// the keys.
pub open spec fn key_order(keys: Seq<Seq<u8>>, order: Seq<usize>) -> bool {
    &&& order.len() == keys.len()
    &&& forall|i: int| 0 <= i < order.len() ==> #[trigger] order[i] < keys.len()
    &&& forall|i: int, j: int| 0 <= i < j < order.len() ==> #[trigger] order[i] != #[trigger] order[j]
    &&& forall|i: int, j: int| 0 <= i < j < order.len() ==> index_before(keys, #[trigger] order[i], #[trigger] order[j])
}

/// Whether index `x` comes before index `y`: by its key, and by position
/// between equal keys.
pub open spec fn index_before(keys: Seq<Seq<u8>>, x: usize, y: usize) -> bool {
    bytes_before(keys[x as int], keys[y as int]) || (keys[x as int] == keys[y as int] && x < y)
}

pub open spec fn account_keys(rows: Seq<AccountEntry>) -> Seq<Seq<u8>> {
    rows.map_values(|e: AccountEntry| utf8(e.address@))
}

pub open spec fn transaction_keys(rows: Seq<TransactionRecord>) -> Seq<Seq<u8>> {
    rows.map_values(|r: TransactionRecord| utf8(r.transaction_id@))
}

pub open spec fn receipt_keys(rows: Seq<ReceiptEntry>) -> Seq<Seq<u8>> {
    rows.map_values(|e: ReceiptEntry| utf8(e.receipt_id@))
}

pub open spec fn epoch_keys(rows: Seq<EpochEntry>) -> Seq<Seq<u8>> {
    rows.map_values(|e: EpochEntry| be_bytes(e.epoch as nat, 8))
}

/// Everything the state root covers, with each table's rows in the given orders.
pub open spec fn audit_message(
    book: LedgerBook,
    accounts: Seq<usize>,
    transactions: Seq<usize>,
    receipts: Seq<usize>,
    epochs: Seq<usize>,
) -> Seq<u8> {
    let s = book.supply;
    field("ShardMeld/SMD/ledger-state/v1\0".spec_bytes()) + field(network_name(book.network).spec_bytes())
        + field("metadata".spec_bytes()) + field("network_id".spec_bytes()) + field(
        network_name(book.network).spec_bytes(),
    ) + field("schema_version".spec_bytes()) + field("1".spec_bytes()) + field(
        "supply_state".spec_bytes(),
    ) + number_field(s.minted_supply.atomic()) + number_field(s.network_emitted_supply.atomic())
        + number_field(s.reserve_balance.atomic()) + number_field(s.circulating_supply.atomic())
        + field("accounts".spec_bytes()) + section(book.accounts@, accounts, account_row())
        + field("transactions".spec_bytes()) + section(book.transactions@, transactions, transaction_row()) + field("reward_receipts".spec_bytes()) + section(book.receipts@, receipts, receipt_row()) + field("epochs".spec_bytes()) + section(book.epochs@, epochs, epoch_row())
}

/// The one key order of the keys.
pub open spec fn key_order_of(keys: Seq<Seq<u8>>) -> Seq<usize> {
    choose|order: Seq<usize>| key_order(keys, order)
}

/// A book's state root: lower-case hex SHA-256 of its audit message, each
/// table in its key order.
pub open spec fn audit_root(book: LedgerBook) -> Seq<char> {
    ascii_chars(
        hex_lower(
            sha256_digest(
                audit_message(
                    book,
                    key_order_of(account_keys(book.accounts@)),
                    key_order_of(transaction_keys(book.transactions@)),
                    key_order_of(receipt_keys(book.receipts@)),
                    key_order_of(epoch_keys(book.epochs@)),
                ),
            ),
        ),
    )
}

/// The result of auditing a book.
#[derive(Debug, Clone, PartialEq, Eq)]
pub struct LedgerAuditReport {
    pub audit_version: u32,
    pub network_id: NetworkId,
    pub state_root_sha256: String,
    pub accounts: u64,
    pub transactions: u64,
    pub contribution_receipts: u64,
    pub epochs: u64,
    pub supply: SupplyState,
    pub invariants_valid: bool,
}

/// Appends a framed field.
pub fn push_field(out: &mut Vec<u8>, bytes: &[u8])
    ensures
        final(out)@ == old(out)@ + field(bytes@),
{
    push_be(out, bytes.len() as u64, 8);
    let mut i: usize = 0;
    let ghost start = out@;
    while i < bytes.len()
        invariant
            i <= bytes@.len(),
            start == old(out)@ + be_bytes(bytes@.len(), 8),
            out@ == start + bytes@.subrange(0, i as int),
        decreases bytes@.len() - i,
    {
        out.push(bytes[i]);
        i = i + 1;
        assert(out@ =~= start + bytes@.subrange(0, i as int));
    }
    assert(bytes@.subrange(0, bytes@.len() as int) =~= bytes@);
    assert(final(out)@ =~= old(out)@ + field(bytes@));
}

/// Appends a number as a framed field.
pub fn push_number_field(out: &mut Vec<u8>, v: u64)
    ensures
        final(out)@ == old(out)@ + number_field(v),
{
    let mut bytes: Vec<u8> = Vec::new();
    push_be(&mut bytes, v, 8);
    assert(bytes@ =~= be_bytes(v as nat, 8));
    push_field(out, bytes.as_slice());
}

/// A key order lists every index below the number of keys.
proof fn lemma_order_covers(keys: Seq<Seq<u8>>, order: Seq<usize>, v: int)
    requires
        key_order(keys, order),
        0 <= v < keys.len(),
    ensures
        exists|i: int| 0 <= i < order.len() && order[i] == v,
{
    let s = order.map_values(|x: usize| x as int);
    assert(s.no_duplicates()) by {
        assert forall|i: int, j: int| 0 <= i < s.len() && 0 <= j < s.len() && i != j implies s[i] != s[j] by {
            if i < j {
                assert(order[i] != order[j]);
            } else {
                assert(order[j] != order[i]);
            }
        }
    }
    s.unique_seq_to_set();
    let range = vstd::set_lib::set_int_range(0, keys.len() as int);
    vstd::set_lib::lemma_int_range(0, keys.len() as int);
    assert(s.to_set().subset_of(range)) by {
        assert forall|x: int| s.to_set().contains(x) implies range.contains(x) by {
            let i = choose|i: int| 0 <= i < s.len() && s[i] == x;
            assert(order[i] < keys.len());
        }
    }
    vstd::seq_lib::seq_to_set_is_finite(s);
    vstd::set_lib::lemma_subset_equality(s.to_set(), range);
    assert(range.contains(v));
    assert(s.to_set().contains(v));
    let i = choose|i: int| 0 <= i < s.len() && s[i] == v;
    assert(order[i] == v);
}

proof fn lemma_index_before_asym(keys: Seq<Seq<u8>>, x: usize, y: usize)
    requires
        index_before(keys, x, y),
    ensures
        !index_before(keys, y, x),
{
    let a = keys[x as int];
    let b = keys[y as int];
    if bytes_before(a, b) && bytes_before(b, a) {
        lemma_bytes_before_transitive(a, b, a);
        lemma_bytes_before_irreflexive(a);
    }
    lemma_bytes_before_irreflexive(a);
}

proof fn lemma_orders_agree_at(keys: Seq<Seq<u8>>, o1: Seq<usize>, o2: Seq<usize>, i: int)
    requires
        key_order(keys, o1),
        key_order(keys, o2),
        0 <= i < o1.len(),
        forall|k: int| 0 <= k < i ==> o1[k] == o2[k],
    ensures
        o1[i] == o2[i],
{
    let a = o1[i];
    let b = o2[i];
    if a != b {
        lemma_order_covers(keys, o1, b as int);
        let j = choose|j: int| 0 <= j < o1.len() && o1[j] == b;
        lemma_order_covers(keys, o2, a as int);
        let k = choose|k: int| 0 <= k < o2.len() && o2[k] == a;
        if j < i {
            assert(o2[j] == b);
            assert(o2[j] != o2[i]);
        }
        if k < i {
            assert(o1[k] == a);
            assert(o1[k] != o1[i]);
        }
        assert(index_before(keys, o1[i], o1[j]));
        assert(index_before(keys, o2[i], o2[k]));
        lemma_index_before_asym(keys, a, b);
    }
}

proof fn lemma_orders_agree_upto(keys: Seq<Seq<u8>>, o1: Seq<usize>, o2: Seq<usize>, i: int)
    requires
        key_order(keys, o1),
        key_order(keys, o2),
        0 <= i <= o1.len(),
    ensures
        forall|k: int| 0 <= k < i ==> o1[k] == o2[k],
    decreases i,
{
    if i > 0 {
        lemma_orders_agree_upto(keys, o1, o2, i - 1);
        lemma_orders_agree_at(keys, o1, o2, i - 1);
    }
}

/// Keys have one order only: two orders that each list every index once,
/// ascending by key and by position between equal keys, are the same.
pub proof fn law_key_order_unique(keys: Seq<Seq<u8>>, o1: Seq<usize>, o2: Seq<usize>)
    requires
        key_order(keys, o1),
        key_order(keys, o2),
    ensures
        o1 == o2,
{
    lemma_orders_agree_upto(keys, o1, o2, o1.len() as int);
    assert(o1 =~= o2);
}

/// The indices of the keys in ascending key order, equal keys by position.
pub fn order_by_keys(keys: &Vec<Vec<u8>>) -> (order: Vec<usize>)
    ensures
        key_order(keys@.map_values(|k: Vec<u8>| k@), order@),
{
    let ghost ks = keys@.map_values(|k: Vec<u8>| k@);
    let mut rest: Vec<usize> = Vec::new();
    let mut i: usize = 0;
    while i < keys.len()
        invariant
            i <= keys@.len(),
            rest@.len() == i,
            forall|j: int| 0 <= j < i ==> #[trigger] rest@[j] == j,
        decreases keys@.len() - i,
    {
        rest.push(i);
        i = i + 1;
    }
    let mut order: Vec<usize> = Vec::new();
    while rest.len() > 0
        invariant
            ks == keys@.map_values(|k: Vec<u8>| k@),
            ks.len() == keys@.len(),
            order@.len() + rest@.len() == ks.len(),
            forall|a: int| 0 <= a < order@.len() ==> #[trigger] order@[a] < ks.len(),
            forall|b: int| 0 <= b < rest@.len() ==> #[trigger] rest@[b] < ks.len(),
            forall|a: int, b: int| 0 <= a < b < order@.len() ==> #[trigger] order@[a] != #[trigger] order@[b],
            forall|a: int, b: int| 0 <= a < b < rest@.len() ==> #[trigger] rest@[a] < #[trigger] rest@[b],
            forall|a: int, b: int| 0 <= a < order@.len() && 0 <= b < rest@.len() ==> #[trigger] order@[a] != #[trigger] rest@[b],
            forall|a: int, b: int| 0 <= a < b < order@.len() ==> index_before(ks, #[trigger] order@[a], #[trigger] order@[b]),
            forall|a: int, b: int|
                0 <= a < order@.len() && 0 <= b < rest@.len() ==> index_before(ks, #[trigger] order@[a], #[trigger] rest@[b]),
        decreases rest@.len(),
    {
        let mut m: usize = 0;
        let mut j: usize = 1;
        proof {
            lemma_bytes_before_irreflexive(ks[rest@[0] as int]);
        }
        while j < rest.len()
            invariant
                ks == keys@.map_values(|k: Vec<u8>| k@),
                ks.len() == keys@.len(),
                1 <= j <= rest@.len(),
                m < j,
                forall|b: int| 0 <= b < rest@.len() ==> #[trigger] rest@[b] < ks.len(),
                forall|x: int| 0 <= x < j ==> !bytes_before(ks[#[trigger] rest@[x] as int], ks[rest@[m as int] as int]),
                forall|x: int| 0 <= x < m ==> bytes_before(ks[rest@[m as int] as int], ks[#[trigger] rest@[x] as int]),
            decreases rest@.len() - j,
        {
            let candidate = rest[j];
            let best = rest[m];
            if bytes_less(keys[candidate].as_slice(), keys[best].as_slice()) {
                proof {
                    let c = ks[rest@[j as int] as int];
                    let bm = ks[rest@[m as int] as int];
                    assert forall|x: int| 0 <= x < j implies !bytes_before(ks[#[trigger] rest@[x] as int], c) by {
                        if bytes_before(ks[rest@[x] as int], c) {
                            lemma_bytes_before_transitive(ks[rest@[x] as int], c, bm);
                        }
                    }
                    assert forall|x: int| 0 <= x < j implies bytes_before(c, ks[#[trigger] rest@[x] as int]) by {
                        let y = ks[rest@[x] as int];
                        if x < m {
                            lemma_bytes_before_transitive(c, bm, y);
                        } else if y == bm {
                        } else {
                            lemma_bytes_before_total(y, bm);
                            lemma_bytes_before_transitive(c, bm, y);
                        }
                    }
                    lemma_bytes_before_irreflexive(c);
                }
                m = j;
            }
            j = j + 1;
        }
        let ghost before_rest = rest@;
        let ghost before_order = order@;
        proof {
            let c = before_rest[m as int];
            assert forall|b: int| 0 <= b < before_rest.len() && b != m implies index_before(ks, c, #[trigger] before_rest[b]) by {
                let y = ks[before_rest[b] as int];
                if b < m {
                } else if y == ks[c as int] {
                    assert(before_rest[m as int] < before_rest[b]);
                } else {
                    lemma_bytes_before_total(y, ks[c as int]);
                }
            }
        }
        let chosen = rest.remove(m);
        order.push(chosen);
        proof {
            assert forall|x: int| 0 <= x < rest@.len() implies #[trigger] rest@[x] == before_rest[if x < m { x } else { x + 1 }] by {}
            assert forall|a: int, b: int| 0 <= a < order@.len() && 0 <= b < rest@.len() implies #[trigger] order@[a] != #[trigger] rest@[b] by {
                assert(rest@[b] == before_rest[if b < m { b } else { b + 1 }]);
                if a < before_order.len() {
                    assert(order@[a] == before_order[a]);
                }
            }
            assert forall|a: int, b: int| 0 <= a < b < rest@.len() implies #[trigger] rest@[a] < #[trigger] rest@[b] by {
                assert(rest@[a] == before_rest[if a < m { a } else { a + 1 }]);
                assert(rest@[b] == before_rest[if b < m { b } else { b + 1 }]);
            }
            assert forall|a: int, b: int| 0 <= a < b < order@.len() implies #[trigger] order@[a] != #[trigger] order@[b] by {
                assert(order@[a] == before_order[a]);
                if b < before_order.len() {
                    assert(order@[b] == before_order[b]);
                }
            }
            assert forall|a: int, b: int|
                0 <= a < order@.len() && 0 <= b < rest@.len() implies index_before(ks, #[trigger] order@[a], #[trigger] rest@[b]) by {
                assert(rest@[b] == before_rest[if b < m { b } else { b + 1 }]);
                if a < before_order.len() {
                    assert(order@[a] == before_order[a]);
                }
            }
            assert forall|a: int, b: int| 0 <= a < b < order@.len() implies index_before(ks, #[trigger] order@[a], #[trigger] order@[b]) by {
                assert(order@[a] == before_order[a]);
                if b < before_order.len() {
                    assert(order@[b] == before_order[b]);
                }
            }
        }
    }
    order
}


/// The bytes of a text.
fn text_bytes(s: &str) -> (bytes: Vec<u8>)
    ensures
        bytes@ == s.spec_bytes(),
{
    let b = s.as_bytes();
    let mut out: Vec<u8> = Vec::new();
    let mut i: usize = 0;
    while i < b.len()
        invariant
            i <= b@.len(),
            out@ == b@.subrange(0, i as int),
        decreases b@.len() - i,
    {
        out.push(b[i]);
        i = i + 1;
        assert(out@ =~= b@.subrange(0, i as int));
    }
    assert(b@.subrange(0, b@.len() as int) =~= b@);
    out
}

proof fn lemma_section_step<T>(rows: Seq<T>, order: Seq<usize>, k: int, f: spec_fn(T) -> Seq<u8>)
    requires
        0 <= k < order.len(),
    ensures
        section(rows, order.subrange(0, k + 1), f) == section(rows, order.subrange(0, k), f) + f(rows[order[k] as int]),
{
    let s = order.subrange(0, k + 1);
    assert(s.drop_last() =~= order.subrange(0, k));
    assert(s.last() == order[k]);
}

fn push_transaction_row(out: &mut Vec<u8>, r: &TransactionRecord)
    ensures
        final(out)@ == old(out)@ + transaction_fields(*r),
{
    reveal(transaction_fields);
    push_field(out, r.transaction_id.as_str().as_bytes());
    let json = r.transaction.to_json();
    push_field(out, json.as_slice());
    push_field(out, r.transaction.from.as_str().as_bytes());
    push_field(out, r.transaction.to.as_str().as_bytes());
    push_number_field(out, r.transaction.amount.atomic());
    push_number_field(out, r.transaction.nonce);
    push_number_field(out, r.accepted_epoch);
    assert(final(out)@ =~= old(out)@ + transaction_fields(*r));
}

/// A receipt's stored JSON.
fn stored_json_of(r: &crate::contribution::ContributionReceipt) -> (json: Vec<u8>)
    ensures
        json@ == stored_receipt_json(*r),
{
    reveal(stored_receipt_json);
    r.to_json()
}

fn push_receipt_text(out: &mut Vec<u8>, e: &ReceiptEntry)
    ensures
        final(out)@ == old(out)@ + receipt_text_fields(*e),
{
    push_field(out, e.receipt_id.as_str().as_bytes());
    push_field(out, e.receipt.session_id.as_str().as_bytes());
    push_field(out, e.receipt.provider_address.as_str().as_bytes());
    push_field(out, e.receipt.receiver_address.as_str().as_bytes());
    push_field(out, e.receipt.content_hash.as_str().as_bytes());
    let json = stored_json_of(&e.receipt);
    push_field(out, json.as_slice());
    if e.rewarded {
        push_field(out, "rewarded".as_bytes());
    } else {
        push_field(out, "pending".as_bytes());
    }
    assert(final(out)@ =~= old(out)@ + receipt_text_fields(*e));
}

fn push_receipt_numbers(out: &mut Vec<u8>, e: &ReceiptEntry)
    ensures
        final(out)@ == old(out)@ + receipt_number_fields(*e),
{
    push_number_field(out, e.receipt.epoch);
    push_number_field(out, e.receipt.nonce);
    push_number_field(out, e.score_bytes);
    push_number_field(out, e.protocol_subsidy.atomic());
    push_number_field(out, e.user_resource_fee.atomic());
    match e.emission_phase {
        Some(p) => {
            push_field(out, "some".as_bytes());
            push_number_field(out, p as u64);
        },
        None => {
            push_field(out, "none".as_bytes());
        },
    }
    assert(final(out)@ =~= old(out)@ + receipt_number_fields(*e));
}

fn push_receipt_row(out: &mut Vec<u8>, e: &ReceiptEntry)
    ensures
        final(out)@ == old(out)@ + receipt_fields(*e),
{
    push_receipt_text(out, e);
    push_receipt_numbers(out, e);
    assert(final(out)@ =~= old(out)@ + receipt_fields(*e));
}

fn push_accounts(out: &mut Vec<u8>, rows: &Vec<AccountEntry>, order: &Vec<usize>)
    requires
        forall|i: int| 0 <= i < order@.len() ==> #[trigger] order@[i] < rows@.len(),
    ensures
        final(out)@ == old(out)@ + section(rows@, order@, account_row()),
{
    let ghost start = out@;
    let mut k: usize = 0;
    assert(order@.subrange(0, 0).len() == 0);
    assert(out@ =~= start + section(rows@, order@.subrange(0, 0), account_row()));
    while k < order.len()
        invariant
            k <= order@.len(),
            forall|i: int| 0 <= i < order@.len() ==> #[trigger] order@[i] < rows@.len(),
            out@ == start + section(rows@, order@.subrange(0, k as int), account_row()),
        decreases order@.len() - k,
    {
        let e = &rows[order[k]];
        let ghost before = out@;
        push_field(out, e.address.as_str().as_bytes());
        push_number_field(out, e.balance.atomic());
        push_number_field(out, e.nonce);
        match &e.public_key {
            Some(key) => {
                push_field(out, "some".as_bytes());
                push_field(out, key.as_str().as_bytes());
            },
            None => {
                push_field(out, "none".as_bytes());
            },
        }
        proof {
            lemma_section_step(rows@, order@, k as int, account_row());
            assert(out@ =~= before + account_fields(rows@[order@[k as int] as int]));
        }
        k = k + 1;
    }
    assert(order@.subrange(0, order@.len() as int) =~= order@);
}

fn push_transactions(out: &mut Vec<u8>, rows: &Vec<TransactionRecord>, order: &Vec<usize>)
    requires
        forall|i: int| 0 <= i < order@.len() ==> #[trigger] order@[i] < rows@.len(),
    ensures
        final(out)@ == old(out)@ + section(rows@, order@, transaction_row()),
{
    let ghost start = out@;
    let mut k: usize = 0;
    assert(out@ =~= start + section(rows@, order@.subrange(0, 0), transaction_row()));
    while k < order.len()
        invariant
            k <= order@.len(),
            forall|i: int| 0 <= i < order@.len() ==> #[trigger] order@[i] < rows@.len(),
            out@ == start + section(rows@, order@.subrange(0, k as int), transaction_row()),
        decreases order@.len() - k,
    {
        let ghost before = out@;
        push_transaction_row(out, &rows[order[k]]);
        proof {
            lemma_section_step(rows@, order@, k as int, transaction_row());
        }
        k = k + 1;
    }
    assert(order@.subrange(0, order@.len() as int) =~= order@);
}

fn push_receipts(out: &mut Vec<u8>, rows: &Vec<ReceiptEntry>, order: &Vec<usize>)
    requires
        forall|i: int| 0 <= i < order@.len() ==> #[trigger] order@[i] < rows@.len(),
    ensures
        final(out)@ == old(out)@ + section(rows@, order@, receipt_row()),
{
    let ghost start = out@;
    let mut k: usize = 0;
    assert(out@ =~= start + section(rows@, order@.subrange(0, 0), receipt_row()));
    while k < order.len()
        invariant
            k <= order@.len(),
            forall|i: int| 0 <= i < order@.len() ==> #[trigger] order@[i] < rows@.len(),
            out@ == start + section(rows@, order@.subrange(0, k as int), receipt_row()),
        decreases order@.len() - k,
    {
        let ghost before = out@;
        push_receipt_row(out, &rows[order[k]]);
        proof {
            lemma_section_step(rows@, order@, k as int, receipt_row());
        }
        k = k + 1;
    }
    assert(order@.subrange(0, order@.len() as int) =~= order@);
}

fn push_epochs(out: &mut Vec<u8>, rows: &Vec<EpochEntry>, order: &Vec<usize>)
    requires
        forall|i: int| 0 <= i < order@.len() ==> #[trigger] order@[i] < rows@.len(),
    ensures
        final(out)@ == old(out)@ + section(rows@, order@, epoch_row()),
{
    let ghost start = out@;
    let mut k: usize = 0;
    assert(out@ =~= start + section(rows@, order@.subrange(0, 0), epoch_row()));
    while k < order.len()
        invariant
            k <= order@.len(),
            forall|i: int| 0 <= i < order@.len() ==> #[trigger] order@[i] < rows@.len(),
            out@ == start + section(rows@, order@.subrange(0, k as int), epoch_row()),
        decreases order@.len() - k,
    {
        let e = &rows[order[k]];
        let ghost before = out@;
        push_number_field(out, e.epoch);
        push_number_field(out, e.receipts_processed);
        push_number_field(out, e.protocol_subsidy.atomic());
        proof {
            lemma_section_step(rows@, order@, k as int, epoch_row());
            assert(out@ =~= before + epoch_fields(rows@[order@[k as int] as int]));
        }
        k = k + 1;
    }
    assert(order@.subrange(0, order@.len() as int) =~= order@);
}


fn account_key_list(rows: &Vec<AccountEntry>) -> (keys: Vec<Vec<u8>>)
    ensures
        keys@.map_values(|k: Vec<u8>| k@) == account_keys(rows@),
{
    let mut keys: Vec<Vec<u8>> = Vec::new();
    let mut i: usize = 0;
    while i < rows.len()
        invariant
            i <= rows@.len(),
            keys@.len() == i,
            forall|j: int| 0 <= j < i ==> #[trigger] keys@[j]@ == utf8(rows@[j].address@),
        decreases rows@.len() - i,
    {
        keys.push(text_bytes(rows[i].address.as_str()));
        i = i + 1;
    }
    assert(keys@.map_values(|k: Vec<u8>| k@) =~= account_keys(rows@));
    keys
}

fn transaction_key_list(rows: &Vec<TransactionRecord>) -> (keys: Vec<Vec<u8>>)
    ensures
        keys@.map_values(|k: Vec<u8>| k@) == transaction_keys(rows@),
{
    let mut keys: Vec<Vec<u8>> = Vec::new();
    let mut i: usize = 0;
    while i < rows.len()
        invariant
            i <= rows@.len(),
            keys@.len() == i,
            forall|j: int| 0 <= j < i ==> #[trigger] keys@[j]@ == utf8(rows@[j].transaction_id@),
        decreases rows@.len() - i,
    {
        keys.push(text_bytes(rows[i].transaction_id.as_str()));
        i = i + 1;
    }
    assert(keys@.map_values(|k: Vec<u8>| k@) =~= transaction_keys(rows@));
    keys
}

fn receipt_key_list(rows: &Vec<ReceiptEntry>) -> (keys: Vec<Vec<u8>>)
    ensures
        keys@.map_values(|k: Vec<u8>| k@) == receipt_keys(rows@),
{
    let mut keys: Vec<Vec<u8>> = Vec::new();
    let mut i: usize = 0;
    while i < rows.len()
        invariant
            i <= rows@.len(),
            keys@.len() == i,
            forall|j: int| 0 <= j < i ==> #[trigger] keys@[j]@ == utf8(rows@[j].receipt_id@),
        decreases rows@.len() - i,
    {
        keys.push(text_bytes(rows[i].receipt_id.as_str()));
        i = i + 1;
    }
    assert(keys@.map_values(|k: Vec<u8>| k@) =~= receipt_keys(rows@));
    keys
}

fn epoch_key_list(rows: &Vec<EpochEntry>) -> (keys: Vec<Vec<u8>>)
    ensures
        keys@.map_values(|k: Vec<u8>| k@) == epoch_keys(rows@),
{
    let mut keys: Vec<Vec<u8>> = Vec::new();
    let mut i: usize = 0;
    while i < rows.len()
        invariant
            i <= rows@.len(),
            keys@.len() == i,
            forall|j: int| 0 <= j < i ==> #[trigger] keys@[j]@ == be_bytes(rows@[j].epoch as nat, 8),
        decreases rows@.len() - i,
    {
        let mut key: Vec<u8> = Vec::new();
        push_be(&mut key, rows[i].epoch, 8);
        assert(key@ =~= be_bytes(rows@[i as int].epoch as nat, 8));
        keys.push(key);
        i = i + 1;
    }
    assert(keys@.map_values(|k: Vec<u8>| k@) =~= epoch_keys(rows@));
    keys
}

impl LedgerBook {
    /// Audits the book: checks its invariants, then computes the state root
    /// over every table, each in key order.
    pub fn audit(&self) -> (report: Result<LedgerAuditReport, LedgerError>)
        ensures
            report is Ok <==> self.wf(),
            report matches Err(e) ==> Err::<(), LedgerError>(e) == crate::ledger::invariants_check(*self),
            report matches Ok(r) ==> {
                &&& r.audit_version == 1
                &&& r.network_id == self.network
                &&& r.accounts == self.accounts@.len()
                &&& r.transactions == self.transactions@.len()
                &&& r.contribution_receipts == self.receipts@.len()
                &&& r.epochs == self.epochs@.len()
                &&& r.supply == self.supply
                &&& r.invariants_valid
                &&& r.state_root_sha256@.len() == 64
                &&& r.state_root_sha256@ == audit_root(*self)
            },
    {
        match self.verify_invariants() {
            Ok(()) => {},
            Err(e) => {
                return Err(e);
            },
        }
        let status = self.status();
        let a = order_by_keys(&account_key_list(&self.accounts));
        let t = order_by_keys(&transaction_key_list(&self.transactions));
        let c = order_by_keys(&receipt_key_list(&self.receipts));
        let e = order_by_keys(&epoch_key_list(&self.epochs));
        let mut message: Vec<u8> = Vec::new();
        push_field(&mut message, "ShardMeld/SMD/ledger-state/v1\0".as_bytes());
        push_field(&mut message, self.network.as_str().as_bytes());
        push_field(&mut message, "metadata".as_bytes());
        push_field(&mut message, "network_id".as_bytes());
        push_field(&mut message, self.network.as_str().as_bytes());
        push_field(&mut message, "schema_version".as_bytes());
        push_field(&mut message, "1".as_bytes());
        push_field(&mut message, "supply_state".as_bytes());
        push_number_field(&mut message, self.supply.minted_supply.atomic());
        push_number_field(&mut message, self.supply.network_emitted_supply.atomic());
        push_number_field(&mut message, self.supply.reserve_balance.atomic());
        push_number_field(&mut message, self.supply.circulating_supply.atomic());
        push_field(&mut message, "accounts".as_bytes());
        push_accounts(&mut message, &self.accounts, &a);
        push_field(&mut message, "transactions".as_bytes());
        push_transactions(&mut message, &self.transactions, &t);
        push_field(&mut message, "reward_receipts".as_bytes());
        push_receipts(&mut message, &self.receipts, &c);
        push_field(&mut message, "epochs".as_bytes());
        push_epochs(&mut message, &self.epochs, &e);
        let root = sha256_hex(message.as_slice());
        proof {
            assert(message@ =~= audit_message(*self, a@, t@, c@, e@));
            law_key_order_unique(account_keys(self.accounts@), a@, key_order_of(account_keys(self.accounts@)));
            law_key_order_unique(transaction_keys(self.transactions@), t@, key_order_of(transaction_keys(self.transactions@)));
            law_key_order_unique(receipt_keys(self.receipts@), c@, key_order_of(receipt_keys(self.receipts@)));
            law_key_order_unique(epoch_keys(self.epochs@), e@, key_order_of(epoch_keys(self.epochs@)));
        }
        Ok(
            LedgerAuditReport {
                audit_version: 1,
                network_id: self.network,
                state_root_sha256: root,
                accounts: status.accounts,
                transactions: status.transactions,
                contribution_receipts: status.contribution_receipts,
                epochs: self.epochs.len() as u64,
                supply: status.supply,
                invariants_valid: true,
            },
        )
    }
}

} // verus!
