//! Consensus engines: which pending contribution receipts an epoch rewards,
//! and in what order.

use vstd::prelude::*;
use vstd::multiset::Multiset;
use vstd::string::StringSliceAdditionalSpecFns;

use crate::contribution::{receipt_json, ContributionReceipt};
use crate::codec::{hex_lower, sha256_digest};
use crate::text::ascii_chars;
use crate::transaction::utf8;

verus! {

/// Why a consensus engine refused to order receipts.
#[derive(Debug, Clone, Copy, PartialEq, Eq, Structural)]
pub enum ConsensusError {
    Refused,
}

/// Lexicographic order on bytes: whether `a` comes strictly before `b`.
pub open spec fn bytes_before(a: Seq<u8>, b: Seq<u8>) -> bool
    decreases a.len(),
{
    if a.len() == 0 {
        b.len() > 0
    } else if b.len() == 0 {
        false
    } else if a[0] != b[0] {
        a[0] < b[0]
    } else {
        bytes_before(a.drop_first(), b.drop_first())
    }
}

/// No byte string comes before itself.
pub proof fn lemma_bytes_before_irreflexive(a: Seq<u8>)
    ensures
        !bytes_before(a, a),
    decreases a.len(),
{
    if a.len() > 0 {
        lemma_bytes_before_irreflexive(a.drop_first());
    }
}

/// Two different byte strings are ordered one way or the other.
pub proof fn lemma_bytes_before_total(a: Seq<u8>, b: Seq<u8>)
    requires
        a != b,
    ensures
        bytes_before(a, b) || bytes_before(b, a),
    decreases a.len(),
{
    if a.len() > 0 && b.len() > 0 && a[0] == b[0] {
        if a.drop_first() == b.drop_first() {
            assert(a =~= seq![a[0]] + a.drop_first());
            assert(b =~= seq![b[0]] + b.drop_first());
        }
        lemma_bytes_before_total(a.drop_first(), b.drop_first());
    } else if a.len() == 0 && b.len() == 0 {
        assert(a =~= b);
    }
}

/// The order on byte strings is transitive.
pub proof fn lemma_bytes_before_transitive(a: Seq<u8>, b: Seq<u8>, c: Seq<u8>)
    requires
        bytes_before(a, b),
        bytes_before(b, c),
    ensures
        bytes_before(a, c),
    decreases a.len(),
{
    if a.len() > 0 && b.len() > 0 && c.len() > 0 && a[0] == b[0] && b[0] == c[0] {
        lemma_bytes_before_transitive(a.drop_first(), b.drop_first(), c.drop_first());
    }
}

/// Whether `a` comes strictly before `b`, byte by byte.
pub fn bytes_less(a: &[u8], b: &[u8]) -> (less: bool)
    ensures
        less == bytes_before(a@, b@),
{
    let mut i: usize = 0;
    assert(a@.skip(0) =~= a@);
    assert(b@.skip(0) =~= b@);
    while i < a.len() && i < b.len() && a[i] == b[i]
        invariant
            i <= a@.len(),
            i <= b@.len(),
            bytes_before(a@, b@) == bytes_before(a@.skip(i as int), b@.skip(i as int)),
        decreases a@.len() - i,
    {
        proof {
            assert(a@.skip(i as int).drop_first() =~= a@.skip(i as int + 1));
            assert(b@.skip(i as int).drop_first() =~= b@.skip(i as int + 1));
        }
        i = i + 1;
    }
    if i == a.len() {
        i < b.len()
    } else if i == b.len() {
        false
    } else {
        a[i] < b[i]
    }
}

/// The bytes a receipt is ordered by: its id, lower-case hex SHA-256 of its JSON.
#[verifier::opaque]
pub open spec fn receipt_key(r: ContributionReceipt) -> Seq<u8> {
    utf8(ascii_chars(hex_lower(sha256_digest(receipt_json(r)))))
}

/// Whether receipts are in ascending order of their ids.
pub open spec fn sorted_by_id(s: Seq<ContributionReceipt>) -> bool {
    forall|i: int, j: int| 0 <= i < j < s.len() ==> !bytes_before(#[trigger] receipt_key(s[j]), #[trigger] receipt_key(s[i]))
}

/// Puts receipts in ascending order of their ids.
pub fn sort_by_id(receipts: &mut Vec<ContributionReceipt>)
    ensures
        final(receipts)@.to_multiset() == old(receipts)@.to_multiset(),
        sorted_by_id(final(receipts)@),
{
    let mut rest: Vec<ContributionReceipt> = Vec::new();
    std::mem::swap(receipts, &mut rest);
    let mut keys: Vec<String> = Vec::new();
    let mut i: usize = 0;
    while i < rest.len()
        invariant
            i <= rest@.len(),
            keys@.len() == i,
            forall|j: int| 0 <= j < i ==> utf8(#[trigger] keys@[j]@) == receipt_key(rest@[j]),
        decreases rest@.len() - i,
    {
        let id = rest[i].id();
        proof {
            reveal(receipt_key);
        }
        keys.push(id);
        i = i + 1;
    }
    proof {
        assert(receipts@ =~= Seq::<ContributionReceipt>::empty());
        receipts@.to_multiset_ensures();
        vstd::multiset::lemma_multiset_empty_len(receipts@.to_multiset());
        assert(receipts@.to_multiset() =~= Multiset::<ContributionReceipt>::empty());
        assert(receipts@.to_multiset().add(rest@.to_multiset()) =~= rest@.to_multiset());
    }
    while rest.len() > 0
        invariant
            keys@.len() == rest@.len(),
            forall|j: int| 0 <= j < rest@.len() ==> utf8(#[trigger] keys@[j]@) == receipt_key(rest@[j]),
            receipts@.to_multiset().add(rest@.to_multiset()) == old(receipts)@.to_multiset(),
            sorted_by_id(receipts@),
            forall|a: int, b: int|
                0 <= a < receipts@.len() && 0 <= b < rest@.len() ==> !bytes_before(
                    #[trigger] receipt_key(rest@[b]),
                    #[trigger] receipt_key(receipts@[a]),
                ),
        decreases rest@.len(),
    {
        let mut m: usize = 0;
        let mut j: usize = 1;
        proof {
            lemma_bytes_before_irreflexive(receipt_key(rest@[0]));
        }
        while j < rest.len()
            invariant
                1 <= j <= rest@.len(),
                m < j,
                keys@.len() == rest@.len(),
                forall|x: int| 0 <= x < rest@.len() ==> utf8(#[trigger] keys@[x]@) == receipt_key(rest@[x]),
                forall|x: int| 0 <= x < j ==> !bytes_before(#[trigger] receipt_key(rest@[x]), receipt_key(rest@[m as int])),
            decreases rest@.len() - j,
        {
            proof {
                lemma_bytes_before_irreflexive(receipt_key(rest@[m as int]));
            }
            if bytes_less(keys[j].as_str().as_bytes(), keys[m].as_str().as_bytes()) {
                proof {
                    assert forall|x: int| 0 <= x < j implies !bytes_before(#[trigger] receipt_key(rest@[x]), receipt_key(rest@[j as int])) by {
                        if bytes_before(receipt_key(rest@[x]), receipt_key(rest@[j as int])) {
                            lemma_bytes_before_transitive(receipt_key(rest@[x]), receipt_key(rest@[j as int]), receipt_key(rest@[m as int]));
                        }
                    }
                    lemma_bytes_before_irreflexive(receipt_key(rest@[j as int]));
                }
                m = j;
            }
            j = j + 1;
        }
        proof {
            lemma_bytes_before_irreflexive(receipt_key(rest@[m as int]));
        }
        let ghost before_rest = rest@;
        let ghost before_out = receipts@;
        let chosen = rest.remove(m);
        let _ = keys.remove(m);
        receipts.push(chosen);
        proof {
            before_rest.to_multiset_ensures();
            before_out.to_multiset_ensures();
            assert(rest@ == before_rest.remove(m as int));
            assert(rest@.to_multiset() =~= before_rest.to_multiset().remove(before_rest[m as int]));
            assert(receipts@.to_multiset() =~= before_out.to_multiset().insert(chosen));
            assert(forall|x: int| 0 <= x < rest@.len() ==> #[trigger] rest@[x] == before_rest[if x < m { x } else { x + 1 }]);
            assert forall|x: int| 0 <= x < keys@.len() implies utf8(#[trigger] keys@[x]@) == receipt_key(rest@[x]) by {
                assert(rest@[x] == before_rest[if x < m { x } else { x + 1 }]);
            }
            assert forall|a: int, b: int| 0 <= a < receipts@.len() && 0 <= b < rest@.len() implies !bytes_before(
                #[trigger] receipt_key(rest@[b]),
                #[trigger] receipt_key(receipts@[a]),
            ) by {
                assert(rest@[b] == before_rest[if b < m { b } else { b + 1 }]);
                if a < before_out.len() {
                    assert(receipts@[a] == before_out[a]);
                }
            }
            assert forall|a: int, b: int| 0 <= a < b < receipts@.len() implies !bytes_before(
                #[trigger] receipt_key(receipts@[b]),
                #[trigger] receipt_key(receipts@[a]),
            ) by {
                assert(receipts@[a] == before_out[a]);
                if b < before_out.len() {
                    assert(receipts@[b] == before_out[b]);
                }
            }
        }
    }
    proof {
        assert(rest@ =~= Seq::<ContributionReceipt>::empty());
        rest@.to_multiset_ensures();
        vstd::multiset::lemma_multiset_empty_len(rest@.to_multiset());
        assert(rest@.to_multiset() =~= Multiset::<ContributionReceipt>::empty());
        assert(receipts@.to_multiset().add(rest@.to_multiset()) =~= receipts@.to_multiset());
    }
}

/// How the receipts of an epoch are chosen and ordered for rewards.
pub trait ConsensusEngine {
    /// Whether `ordered` is an order this engine gives to `pending`.
    spec fn orders(&self, pending: Seq<ContributionReceipt>, ordered: Seq<ContributionReceipt>) -> bool;

    /// Whether this engine orders every set of pending receipts.
    spec fn never_refuses(&self) -> bool;

    /// Orders the pending receipts of an epoch for rewards.
    fn order_receipts(&self, receipts: &mut Vec<ContributionReceipt>) -> (result: Result<(), ConsensusError>)
        ensures
            result is Ok ==> self.orders(old(receipts)@, final(receipts)@),
            self.never_refuses() ==> result is Ok,
    ;
}

/// The devnet's authority: it rewards every pending receipt, in ascending
/// order of receipt id.
#[derive(Debug, Clone, Copy, Default)]
pub struct DevnetAuthorityConsensus;

impl ConsensusEngine for DevnetAuthorityConsensus {
    open spec fn orders(&self, pending: Seq<ContributionReceipt>, ordered: Seq<ContributionReceipt>) -> bool {
        ordered.to_multiset() == pending.to_multiset() && sorted_by_id(ordered)
    }

    open spec fn never_refuses(&self) -> bool {
        true
    }

    fn order_receipts(&self, receipts: &mut Vec<ContributionReceipt>) -> (result: Result<(), ConsensusError>)
        ensures
            result is Ok,
    {
        sort_by_id(receipts);
        Ok(())
    }
}

} // verus!
