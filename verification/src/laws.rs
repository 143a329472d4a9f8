//! The library's global laws, stated over the models that the public
//! contracts use and proved once and for all.

use vstd::prelude::*;

use crate::account::{account_id, AccountV, SubAccountV, sub_account_id};
use crate::classify::{spec_classify, RecordV};
use crate::node::{node_id, NodeV};
use crate::store::{date_sorted, distinct_txs, same_members};
use crate::transaction::{spec_direction, tx_encode, Direction, TransactionV};

verus! {

use vstd::seq_lib::*;

/// Determinism of classification: one record, classified any number of
/// times, resolves to the same source, sink, amount, tags and description.
/// Together with `Transaction::from_record`'s contract, two runs on rows of
/// equal content yield transactions of equal content.
pub proof fn lemma_classify_deterministic(r1: RecordV, r2: RecordV)
    requires
        r1 == r2,
    ensures
        spec_classify(r1) == spec_classify(r2),
{
}

/// Identity invariance under irrelevant fields: an account's identity
/// depends on its IBAN alone, so changing the display name moves nothing.
pub proof fn lemma_account_id_ignores_name(a1: AccountV, a2: AccountV)
    requires
        a1.iban == a2.iban,
    ensures
        account_id(a1) == account_id(a2),
{
}

/// A sub-account's identity depends on its BSAN alone.
pub proof fn lemma_sub_account_id_ignores_rest(a1: SubAccountV, a2: SubAccountV)
    requires
        a1.bsan == a2.bsan,
    ensures
        sub_account_id(a1) == sub_account_id(a2),
{
}

/// A transaction's description enters its identity: two transactions that
/// agree on every other field but differ in description feed different
/// content strings to the identity digest.
pub proof fn lemma_tx_description_enters_identity(t1: TransactionV, t2: TransactionV)
    requires
        t1.date == t2.date,
        t1.source == t2.source,
        t1.sink == t2.sink,
        t1.amount == t2.amount,
        t1.inherent_tags == t2.inherent_tags,
        t1.description != t2.description,
    ensures
        tx_encode(t1) != tx_encode(t2),
{
    if tx_encode(t1) == tx_encode(t2) {
        let head = tx_encode(t1).len() - t1.description.len();
        assert(tx_encode(t2).len() - t2.description.len() == head);
        assert forall|i: int| 0 <= i < t1.description.len() implies t1.description[i]
            == t2.description[i] by {
            assert(tx_encode(t1)[head + i] == t1.description[i]);
            assert(tx_encode(t2)[head + i] == t2.description[i]);
        }
        assert(t1.description =~= t2.description);
    }
}

/// Retagging equivalence: wrapping an account in a node and re-tagging the
/// account's identifier give the same identity value, so
/// `Node::transfer_from(account.id())` equals `node.id()` for the wrapping
/// node.
pub proof fn lemma_retag_equivalence(a: AccountV)
    ensures
        node_id(NodeV::ProperAccount(a)) == account_id(a),
{
}

/// Retagging equivalence for the sub-account wrapper.
pub proof fn lemma_retag_equivalence_sub(a: SubAccountV)
    ensures
        node_id(NodeV::SubAccount(a)) == sub_account_id(a),
{
}

/// In a duplicate-free sequence every content occurs at most once.
proof fn lemma_distinct_counts(s: Seq<TransactionV>)
    requires
        distinct_txs(s),
    ensures
        forall|t: TransactionV|
            s.to_multiset().count(t) == if s.contains(t) {
                1int
            } else {
                0int
            },
{
    broadcast use group_to_multiset_ensures;

    assert(s.no_duplicates());
    s.lemma_multiset_has_no_duplicates();
    assert forall|t: TransactionV|
        s.to_multiset().count(t) == (if s.contains(t) {
            1int
        } else {
            0int
        }) by {
        if s.contains(t) {
            assert(s.to_multiset().contains(t));
        } else {
            assert(s.to_multiset().count(t) == 0);
        }
    }
}

/// Idempotent store construction: a store built from a list and a store
/// built from any deduplication of that list hold the same multiset of
/// distinct transactions. The hypotheses are exactly what
/// `Transactions::new` ensures about its result.
pub proof fn lemma_store_idempotent(
    r1: Seq<TransactionV>,
    r2: Seq<TransactionV>,
    input: Seq<TransactionV>,
    deduped: Seq<TransactionV>,
)
    requires
        date_sorted(r1),
        distinct_txs(r1),
        same_members(r1, input),
        date_sorted(r2),
        distinct_txs(r2),
        same_members(r2, deduped),
        distinct_txs(deduped),
        same_members(deduped, input),
    ensures
        r1.to_multiset() == r2.to_multiset(),
{
    lemma_distinct_counts(r1);
    lemma_distinct_counts(r2);
    assert forall|t: TransactionV| r1.to_multiset().count(t) == r2.to_multiset().count(t) by {
        assert(r1.contains(t) <==> input.contains(t));
        assert(r2.contains(t) <==> deduped.contains(t));
        assert(deduped.contains(t) <==> input.contains(t));
    }
    assert(r1.to_multiset() =~= r2.to_multiset());
}

/// Filtering with an always-true predicate keeps every element: together
/// with `Transactions::filter`'s contract, such a filter yields a store
/// with exactly the content of the original.
pub proof fn lemma_filter_true_id(s: Seq<TransactionV>)
    ensures
        s.filter(|t: TransactionV| true) == s,
    decreases s.len(),
{
    reveal(Seq::filter);
    if s.len() > 0 {
        lemma_filter_true_id(s.drop_last());
        assert(s.drop_last().push(s.last()) =~= s);
    }
}

/// Direction correctness: for any transaction whose source does not share
/// the perspective's identity, the direction is incoming exactly when the
/// perspective's identity equals the sink's. The excluded case is the
/// pathological self-transfer seen from its own account, which resolves to
/// no direction at all.
pub proof fn lemma_direction_correct(t: TransactionV, p: NodeV)
    requires
        node_id(t.source) != node_id(p),
    ensures
        spec_direction(t, p) == Some(Direction::Incoming) <==> node_id(t.sink) == node_id(p),
{
}

/// One half of direction correctness that needs no hypothesis: an incoming
/// direction always means the perspective is the sink.
pub proof fn lemma_incoming_means_sink(t: TransactionV, p: NodeV)
    ensures
        spec_direction(t, p) == Some(Direction::Incoming) ==> node_id(t.sink) == node_id(p),
{
}

} // verus!
