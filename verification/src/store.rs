//! The transaction store: a deduplicated collection of canonical
//! transactions in non-decreasing date order. Construction removes
//! duplicates by full-content equality and sorts by date; the order among
//! transactions sharing a date is left open. Filtering produces a new,
//! independent store and never mutates the base collection.

use vstd::prelude::*;

use crate::date::date_le;
use crate::transaction::{Transaction, TransactionV};

verus! {

use vstd::multiset::Multiset;
use vstd::seq_lib::*;

/// The models of a sequence of transactions.
pub open spec fn views(s: Seq<Transaction>) -> Seq<TransactionV> {
    s.map_values(|t: Transaction| t@)
}

/// Dates never decrease along the sequence.
pub open spec fn date_sorted(s: Seq<TransactionV>) -> bool {
    forall|i: int, j: int| 0 <= i < j < s.len() ==> date_le(#[trigger] s[i].date, #[trigger] s[j].date)
}

/// No two positions hold the same transaction content.
pub open spec fn distinct_txs(s: Seq<TransactionV>) -> bool {
    forall|i: int, j: int| 0 <= i < j < s.len() ==> #[trigger] s[i] != #[trigger] s[j]
}

/// The two sequences hold exactly the same set of transaction contents.
pub open spec fn same_members(a: Seq<TransactionV>, b: Seq<TransactionV>) -> bool {
    forall|t: TransactionV| a.contains(t) <==> b.contains(t)
}

/// The sub-selection of `s` at the positions where `keep` is set,
/// preserving order.
pub open spec fn mask_filter<A>(s: Seq<A>, keep: Seq<bool>) -> Seq<A>
    decreases s.len(),
{
    if s.len() == 0 {
        Seq::empty()
    } else {
        let rest = mask_filter(s.drop_last(), keep.drop_last());
        if keep.len() == s.len() && keep.last() {
            rest.push(s.last())
        } else {
            rest
        }
    }
}

/// Every element of a masked sub-selection is an element of the base
/// sequence, order and distinctness carry over, and so does sortedness.
pub proof fn lemma_mask_filter_structure(s: Seq<TransactionV>, keep: Seq<bool>)
    requires
        keep.len() == s.len(),
    ensures
        forall|t: TransactionV| #[trigger] mask_filter(s, keep).contains(t) ==> s.contains(t),
        date_sorted(s) ==> date_sorted(mask_filter(s, keep)),
        distinct_txs(s) ==> distinct_txs(mask_filter(s, keep)),
    decreases s.len(),
{
    if s.len() > 0 {
        let s0 = s.drop_last();
        let k0 = keep.drop_last();
        lemma_mask_filter_structure(s0, k0);
        let m0 = mask_filter(s0, k0);
        let m = mask_filter(s, keep);
        assert(date_sorted(s) ==> date_sorted(s0));
        assert(distinct_txs(s) ==> distinct_txs(s0));
        assert forall|t: TransactionV| #[trigger] m.contains(t) implies s.contains(t) by {
            if keep.last() && t == s.last() {
                assert(s[s.len() - 1] == t);
            } else {
                assert(m0.contains(t));
                let i = choose|i: int| 0 <= i < m0.len() && m0[i] == t;
                let j = choose|j: int| 0 <= j < s0.len() && s0[j] == t;
                assert(s[j] == t);
            }
        }
        if keep.last() {
            assert(m == m0.push(s.last()));
            if date_sorted(s) {
                assert forall|i: int, j: int| 0 <= i < j < m.len() implies date_le(
                    #[trigger] m[i].date,
                    #[trigger] m[j].date,
                ) by {
                    if j < m.len() - 1 {
                        assert(m[i] == m0[i] && m[j] == m0[j]);
                    } else {
                        assert(m[i] == m0[i]);
                        assert(m0.contains(m0[i]));
                        assert(s0.contains(m0[i]));
                        let x = choose|x: int| 0 <= x < s0.len() && s0[x] == m0[i];
                        assert(date_le(s[x].date, s[s.len() - 1].date));
                    }
                }
            }
            if distinct_txs(s) {
                assert forall|i: int, j: int| 0 <= i < j < m.len() implies #[trigger] m[i]
                    != #[trigger] m[j] by {
                    if j < m.len() - 1 {
                        assert(m[i] == m0[i] && m[j] == m0[j]);
                    } else {
                        assert(m[i] == m0[i]);
                        assert(m0.contains(m0[i]));
                        assert(s0.contains(m0[i]));
                        let x = choose|x: int| 0 <= x < s0.len() && s0[x] == m0[i];
                        assert(s[x] != s[s.len() - 1]);
                    }
                }
            }
        }
    }
}

/// If `keep` agrees pointwise with a predicate `p`, the masked
/// sub-selection is exactly `Seq::filter` under `p`.
pub proof fn lemma_mask_filter_as_filter<A>(s: Seq<A>, keep: Seq<bool>, p: spec_fn(A) -> bool)
    requires
        keep.len() == s.len(),
        forall|i: int| 0 <= i < s.len() ==> keep[i] == p(#[trigger] s[i]),
    ensures
        mask_filter(s, keep) == s.filter(p),
    decreases s.len(),
{
    reveal(Seq::filter);
    if s.len() > 0 {
        let s0 = s.drop_last();
        let k0 = keep.drop_last();
        assert(forall|i: int| 0 <= i < s0.len() ==> k0[i] == p(#[trigger] s0[i]));
        lemma_mask_filter_as_filter(s0, k0, p);
        assert(keep.last() == p(s.last()));
    }
}

/// A list of unique transactions sorted by non-decreasing date, to the
/// granularity of days: the order of transactions within one day is not
/// specified and must not be relied upon.
pub struct Transactions {
    data: Vec<Transaction>,
}

impl View for Transactions {
    type V = Seq<TransactionV>;

    closed spec fn view(&self) -> Seq<TransactionV> {
        views(self.data@)
    }
}

impl Transactions {
    /// The store's invariant: sorted by date and free of duplicates.
    pub open spec fn wf(&self) -> bool {
        date_sorted(self@) && distinct_txs(self@)
    }

    /// Build a store from raw transactions: duplicates (by full content)
    /// collapse to one, and the result is sorted by non-decreasing date.
    pub fn new(transactions: Vec<Transaction>) -> (r: Transactions)
        ensures
            r.wf(),
            same_members(r@, views(transactions@)),
    {
        let deduped = dedup_txs(&transactions);
        let ghost dv = views(deduped@);
        let sorted = sort_by_date(deduped);
        proof {
            broadcast use vstd::seq_lib::group_to_multiset_ensures;

            assert(same_members(views(sorted@), dv)) by {
                assert(forall|t: TransactionV|
                    views(sorted@).contains(t) <==> views(sorted@).to_multiset().count(t) > 0);
                assert(forall|t: TransactionV| dv.contains(t) <==> dv.to_multiset().count(t) > 0);
            }
            assert(distinct_txs(views(sorted@))) by {
                dv.lemma_multiset_has_no_duplicates();
                views(sorted@).lemma_multiset_has_no_duplicates_conv();
                lemma_distinct_no_duplicates(views(sorted@));
                lemma_no_duplicates_distinct(dv);
            }
        }
        Transactions { data: sorted }
    }

    /// Read the full, date-ordered slice of transactions.
    pub fn data(&self) -> (r: &Vec<Transaction>)
        ensures
            views(r@) == self@,
    {
        &self.data
    }

    /// The number of stored transactions.
    pub fn len(&self) -> (r: usize)
        ensures
            r == self@.len(),
    {
        self.data.len()
    }

    /// The earliest-dated transaction, or `None` for an empty store.
    pub fn first(&self) -> (r: Option<&Transaction>)
        ensures
            match r {
                Option::None => self@.len() == 0,
                Option::Some(t) => self@.len() > 0 && t@ == self@[0],
            },
    {
        if self.data.len() == 0 {
            None
        } else {
            Some(&self.data[0])
        }
    }

    /// The latest-dated transaction, or `None` for an empty store.
    pub fn last(&self) -> (r: Option<&Transaction>)
        ensures
            match r {
                Option::None => self@.len() == 0,
                Option::Some(t) => self@.len() > 0 && t@ == self@[self@.len() - 1],
            },
    {
        if self.data.len() == 0 {
            None
        } else {
            Some(&self.data[self.data.len() - 1])
        }
    }

    /// A new store holding only the transactions `by` accepts, in the same
    /// order; the receiver is untouched. The result is a pure sub-selection:
    /// some mask over the input selects it, and whenever `by` decides a
    /// predicate `p` on the transaction's content, the result is exactly
    /// `Seq::filter` of the input under `p`.
    pub fn filter<F: Fn(&Transaction) -> bool>(&self, pred: F) -> (r: Transactions)
        requires
            self.wf(),
            forall|t: &Transaction| #[trigger] pred.requires((t,)),
        ensures
            r.wf(),
            exists|keep: Seq<bool>|
                keep.len() == self@.len() && r@ == #[trigger] mask_filter(self@, keep),
            forall|p: spec_fn(TransactionV) -> bool|
                (forall|t: &Transaction, b: bool| #[trigger] call_ensures(pred, (t,), b) ==> b == p(
                    t@,
                )) ==> r@ == self@.filter(p),
    {
        let mut kept: Vec<Transaction> = Vec::new();
        let ghost mut keep = Seq::<bool>::empty();
        let mut i: usize = 0;
        while i < self.data.len()
            invariant
                i <= self.data@.len(),
                forall|t: &Transaction| #[trigger] pred.requires((t,)),
                keep.len() == i,
                views(kept@) == mask_filter(views(self.data@.subrange(0, i as int)), keep),
                forall|k: int|
                    0 <= k < i ==> (#[trigger] keep[k] ==> call_ensures(
                        pred,
                        (&self.data@[k],),
                        true,
                    )) && (!keep[k] ==> call_ensures(pred, (&self.data@[k],), false)),
            decreases self.data@.len() - i,
        {
            let t = &self.data[i];
            let b = pred(t);
            proof {
                let pre = self.data@.subrange(0, i as int);
                let ext = self.data@.subrange(0, (i + 1) as int);
                assert(ext.drop_last() =~= pre);
                assert(views(ext).drop_last() =~= views(pre));
                assert(keep.push(b).drop_last() =~= keep);
                assert(views(ext).last() == self.data@[i as int]@);
            }
            if b {
                kept.push(t.duplicate());
                proof {
                    assert(views(kept@) =~= mask_filter(
                        views(self.data@.subrange(0, (i + 1) as int)),
                        keep.push(true),
                    ));
                }
                proof {
                    keep = keep.push(true);
                }
            } else {
                proof {
                    assert(views(kept@) =~= mask_filter(
                        views(self.data@.subrange(0, (i + 1) as int)),
                        keep.push(false),
                    ));
                }
                proof {
                    keep = keep.push(false);
                }
            }
            i += 1;
        }
        proof {
            assert(self.data@.subrange(0, self.data@.len() as int) =~= self.data@);
            lemma_mask_filter_structure(self@, keep);
            assert forall|p: spec_fn(TransactionV) -> bool|
                (forall|t: &Transaction, b: bool| #[trigger] call_ensures(pred, (t,), b) ==> b == p(
                    t@,
                )) implies views(kept@) == self@.filter(p) by {
                assert forall|k: int| 0 <= k < self@.len() implies keep[k] == p(
                    #[trigger] self@[k],
                ) by {
                    assert(self@[k] == self.data@[k]@);
                }
                lemma_mask_filter_as_filter(self@, keep, p);
            }
        }
        Transactions { data: kept }
    }
}

/// `distinct_txs` and `Seq::no_duplicates` coincide.
proof fn lemma_distinct_no_duplicates(s: Seq<TransactionV>)
    requires
        s.no_duplicates(),
    ensures
        distinct_txs(s),
{
}

/// `Seq::no_duplicates` follows from `distinct_txs`.
proof fn lemma_no_duplicates_distinct(s: Seq<TransactionV>)
    requires
        distinct_txs(s),
    ensures
        s.no_duplicates(),
{
}

/// Whether some stored transaction has exactly the content of `t`.
fn contains_tx(v: &Vec<Transaction>, t: &Transaction) -> (r: bool)
    ensures
        r == views(v@).contains(t@),
{
    let mut i: usize = 0;
    while i < v.len()
        invariant
            i <= v@.len(),
            forall|k: int| 0 <= k < i ==> views(v@)[k] != t@,
        decreases v@.len() - i,
    {
        if v[i].same(t) {
            proof {
                assert(views(v@)[i as int] == t@);
            }
            return true;
        }
        i += 1;
    }
    proof {
        if views(v@).contains(t@) {
            let k = choose|k: int| 0 <= k < views(v@).len() && views(v@)[k] == t@;
            assert(views(v@)[k] != t@);
        }
    }
    false
}

/// Keep the first occurrence of every distinct transaction content.
fn dedup_txs(input: &Vec<Transaction>) -> (r: Vec<Transaction>)
    ensures
        distinct_txs(views(r@)),
        same_members(views(r@), views(input@)),
{
    let mut out: Vec<Transaction> = Vec::new();
    let mut i: usize = 0;
    while i < input.len()
        invariant
            i <= input@.len(),
            distinct_txs(views(out@)),
            same_members(views(out@), views(input@.subrange(0, i as int))),
        decreases input@.len() - i,
    {
        let t = &input[i];
        let ghost pre = views(out@);
        let ghost seen = views(input@.subrange(0, i as int));
        let ghost ext = views(input@.subrange(0, (i + 1) as int));
        proof {
            assert(input@.subrange(0, (i + 1) as int).drop_last() =~= input@.subrange(0, i as int));
            assert(ext.drop_last() =~= seen);
            assert(ext.last() == input@[i as int]@);
            assert forall|x: TransactionV| ext.contains(x) implies x == input@[i as int]@
                || seen.contains(x) by {
                let k = choose|k: int| 0 <= k < ext.len() && ext[k] == x;
                if k < ext.len() - 1 {
                    assert(seen[k] == x);
                }
            }
            assert(forall|x: TransactionV| seen.contains(x) ==> ext.contains(x));
            assert(ext.contains(input@[i as int]@)) by {
                assert(ext[ext.len() - 1] == input@[i as int]@);
            }
        }
        if !contains_tx(&out, t) {
            out.push(t.duplicate());
            proof {
                assert(views(out@) =~= pre.push(input@[i as int]@));
                assert forall|x: TransactionV| views(out@).contains(x) implies ext.contains(x) by {
                    let k = choose|k: int| 0 <= k < views(out@).len() && views(out@)[k] == x;
                    if k < views(out@).len() - 1 {
                        assert(pre[k] == x);
                    }
                }
                assert forall|x: TransactionV| ext.contains(x) implies views(out@).contains(x) by {
                    if x == input@[i as int]@ {
                        assert(views(out@)[views(out@).len() - 1] == x);
                    } else {
                        assert(seen.contains(x));
                        let k = choose|k: int| 0 <= k < pre.len() && pre[k] == x;
                        assert(views(out@)[k] == x);
                    }
                }
                assert forall|i2: int, j2: int|
                    0 <= i2 < j2 < views(out@).len() implies #[trigger] views(out@)[i2]
                    != #[trigger] views(out@)[j2] by {
                    if j2 == views(out@).len() - 1 {
                        assert(pre.contains(pre[i2]));
                    } else {
                        assert(pre[i2] != pre[j2]);
                    }
                }
            }
        } else {
            proof {
                assert forall|x: TransactionV| ext.contains(x) implies views(out@).contains(
                    x,
                ) by {
                    if x == input@[i as int]@ {
                    } else {
                        assert(seen.contains(x));
                    }
                }
                assert(forall|x: TransactionV| views(out@).contains(x) ==> seen.contains(x));
            }
        }
        i += 1;
    }
    proof {
        assert(input@.subrange(0, input@.len() as int) =~= input@);
    }
    out
}

/// Sort by non-decreasing date, preserving the multiset of contents.
fn sort_by_date(input: Vec<Transaction>) -> (r: Vec<Transaction>)
    ensures
        date_sorted(views(r@)),
        views(r@).to_multiset() == views(input@).to_multiset(),
{
    broadcast use vstd::seq_lib::group_to_multiset_ensures;

    let mut src = input;
    let ghost whole = views(src@).to_multiset();
    let mut out: Vec<Transaction> = Vec::new();
    proof {
        assert(views(out@).to_multiset() =~= Multiset::<TransactionV>::empty());
    }
    while src.len() > 0
        invariant
            views(out@).to_multiset().add(views(src@).to_multiset()) == whole,
            date_sorted(views(out@)),
            forall|i: int, j: int|
                0 <= i < views(out@).len() && 0 <= j < views(src@).len() ==> date_le(
                    #[trigger] views(out@)[i].date,
                    #[trigger] views(src@)[j].date,
                ),
        decreases src@.len(),
    {
        let m = min_date_index(&src);
        let ghost sv = views(src@);
        let t = src.remove(m);
        proof {
            assert(views(src@) =~= sv.remove(m as int));
            sv.to_multiset_ensures();
            assert(sv.remove(m as int).to_multiset() =~= sv.to_multiset().remove(sv[m as int]));
            assert(sv.contains(sv[m as int]));
            assert(sv.to_multiset().count(sv[m as int]) > 0);
        }
        let ghost ov = views(out@);
        out.push(t);
        proof {
            assert(views(out@) =~= ov.push(t@));
            ov.to_multiset_ensures();
            assert(ov.push(t@).to_multiset() =~= ov.to_multiset().insert(t@));
            assert(views(out@).to_multiset().add(views(src@).to_multiset()) =~= ov.to_multiset().add(
                sv.to_multiset(),
            ));
            // Sortedness: the new last element is below everything left in
            // `src` and above everything already in `out`.
            assert forall|i: int, j: int| 0 <= i < j < views(out@).len() implies date_le(
                #[trigger] views(out@)[i].date,
                #[trigger] views(out@)[j].date,
            ) by {
                if j < views(out@).len() - 1 {
                    assert(views(out@)[i] == ov[i] && views(out@)[j] == ov[j]);
                } else {
                    if i < views(out@).len() - 1 {
                        assert(views(out@)[i] == ov[i]);
                        assert(date_le(ov[i].date, sv[m as int].date));
                    }
                }
            }
            assert forall|i: int, j: int|
                0 <= i < views(out@).len() && 0 <= j < views(src@).len() implies date_le(
                #[trigger] views(out@)[i].date,
                #[trigger] views(src@)[j].date,
            ) by {
                let jj = if j < m { j } else { j + 1 };
                assert(views(src@)[j] == sv[jj]);
                if i < views(out@).len() - 1 {
                    assert(views(out@)[i] == ov[i]);
                    assert(date_le(ov[i].date, sv[jj].date));
                } else {
                    assert(views(out@)[i] == sv[m as int]);
                    assert(date_le(sv[m as int].date, sv[jj].date));
                }
            }
        }
    }
    proof {
        assert(views(src@).to_multiset() =~= Multiset::<TransactionV>::empty());
        assert(views(out@).to_multiset() =~= whole);
    }
    out
}

/// Index of a transaction whose date is minimal.
fn min_date_index(v: &Vec<Transaction>) -> (r: usize)
    requires
        v@.len() > 0,
    ensures
        r < v@.len(),
        forall|k: int| 0 <= k < v@.len() ==> date_le(views(v@)[r as int].date, #[trigger] views(v@)[k].date),
{
    let mut best: usize = 0;
    let mut i: usize = 1;
    while i < v.len()
        invariant
            best < i <= v@.len(),
            forall|k: int| 0 <= k < i ==> date_le(views(v@)[best as int].date, #[trigger] views(v@)[k].date),
        decreases v@.len() - i,
    {
        if !v[best].date.le(&v[i].date) {
            proof {
                assert(date_le(v@[i as int].date, v@[best as int].date)) by {
                    let a = v@[best as int].date;
                    let b = v@[i as int].date;
                    assert(date_le(a, b) || date_le(b, a));
                }
            }
            best = i;
        }
        i += 1;
    }
    best
}

} // verus!
