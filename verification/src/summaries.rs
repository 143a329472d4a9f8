//! Frequency statistics over a transaction store: how often each node
//! identity occurs as an endpoint. Every transaction contributes exactly
//! two counts, one per endpoint visited, so a self-transfer counts its one
//! node twice.

use vstd::prelude::*;

use std::collections::HashMap;

use crate::identify::Identify;
use crate::node::node_id;
use crate::store::Transactions;
use crate::transaction::TransactionV;

verus! {

use vstd::std_specs::hash::*;

/// How often `v` occurs as a source or sink identity in `ts`; one
/// transaction counts each of its two endpoints separately.
pub open spec fn endpoint_count(ts: Seq<TransactionV>, v: u64) -> int
    decreases ts.len(),
{
    if ts.len() == 0 {
        0
    } else {
        endpoint_count(ts.drop_last(), v) + (if node_id(ts.last().source) == v {
            1int
        } else {
            0int
        }) + (if node_id(ts.last().sink) == v {
            1int
        } else {
            0int
        })
    }
}

pub proof fn lemma_endpoint_count_nonneg(ts: Seq<TransactionV>, v: u64)
    ensures
        0 <= endpoint_count(ts, v) <= 2 * ts.len(),
    decreases ts.len(),
{
    if ts.len() > 0 {
        lemma_endpoint_count_nonneg(ts.drop_last(), v);
    }
}

/// The number of times each node identity occurs as an endpoint of a stored
/// transaction, keyed by identity value: an identity is present iff it
/// occurs, and it maps to its exact occurrence count.
pub fn node_frequencies(transactions: &Transactions) -> (r: HashMap<u64, u64>)
    requires
        transactions@.len() < 0x4000_0000_0000_0000,
    ensures
        forall|v: u64| r@.contains_key(v) <==> endpoint_count(transactions@, v) > 0,
        forall|v: u64| #[trigger] r@.contains_key(v) ==> r@[v] == endpoint_count(
            transactions@,
            v,
        ),
{
    broadcast use vstd::std_specs::hash::group_hash_axioms;

    let data = transactions.data();
    let ghost whole = transactions@;
    let mut pairs: Vec<(u64, u64)> = Vec::new();
    let mut i: usize = 0;
    while i < data.len()
        invariant
            i <= data@.len(),
            crate::store::views(data@) == whole,
            whole.len() < 0x4000_0000_0000_0000,
            forall|a: int, b: int|
                0 <= a < b < pairs@.len() ==> (#[trigger] pairs@[a]).0 != (#[trigger] pairs@[b]).0,
            forall|a: int|
                0 <= a < pairs@.len() ==> (#[trigger] pairs@[a]).1 == endpoint_count(
                    whole.subrange(0, i as int),
                    pairs@[a].0,
                ) && pairs@[a].1 > 0,
            forall|v: u64|
                endpoint_count(whole.subrange(0, i as int), v) > 0 ==> exists|a: int|
                    0 <= a < pairs@.len() && (#[trigger] pairs@[a]).0 == v,
        decreases data@.len() - i,
    {
        let ghost pre = whole.subrange(0, i as int);
        let ghost ext = whole.subrange(0, (i + 1) as int);
        proof {
            assert(ext.drop_last() =~= pre);
            assert(ext.last() == whole[i as int]);
            assert(whole[i as int] == data@[i as int]@);
            lemma_endpoint_count_nonneg(pre, 0);
        }
        let t = &data[i];
        let sid = t.source.id().value;
        bump(&mut pairs, sid, Ghost(pre));
        let kid = t.sink.id().value;
        proof {
            assert(forall|v: u64|
                endpoint_count(ext, v) == endpoint_count(pre, v) + (if node_id(
                    whole[i as int].source,
                ) == v {
                    1int
                } else {
                    0int
                }) + (if node_id(whole[i as int].sink) == v {
                    1int
                } else {
                    0int
                }));
        }
        bump2(&mut pairs, kid, Ghost(pre), Ghost(ext), Ghost(node_id(whole[i as int].source)));
        i += 1;
    }
    proof {
        assert(whole.subrange(0, whole.len() as int) =~= whole);
    }
    let mut m: HashMap<u64, u64> = HashMap::new();
    let mut k: usize = 0;
    while k < pairs.len()
        invariant
            k <= pairs@.len(),
            forall|a: int, b: int|
                0 <= a < b < pairs@.len() ==> (#[trigger] pairs@[a]).0 != (#[trigger] pairs@[b]).0,
            forall|v: u64|
                #[trigger] m@.contains_key(v) <==> exists|a: int|
                    0 <= a < k && (#[trigger] pairs@[a]).0 == v,
            forall|a: int|
                0 <= a < k ==> m@.contains_key((#[trigger] pairs@[a]).0) && m@[pairs@[a].0]
                    == pairs@[a].1,
            obeys_key_model::<u64>(),
            builds_valid_hashers::<std::hash::RandomState>(),
        decreases pairs@.len() - k,
    {
        let (key, count) = pairs[k];
        m.insert(key, count);
        k += 1;
    }
    proof {
        assert forall|v: u64| m@.contains_key(v) <==> endpoint_count(whole, v) > 0 by {
            if m@.contains_key(v) {
                let a = choose|a: int| 0 <= a < pairs@.len() && (#[trigger] pairs@[a]).0 == v;
                assert(pairs@[a].1 == endpoint_count(whole, v));
            }
        }
        assert forall|v: u64| #[trigger] m@.contains_key(v) implies m@[v] == endpoint_count(
            whole,
            v,
        ) by {
            let a = choose|a: int| 0 <= a < pairs@.len() && (#[trigger] pairs@[a]).0 == v;
            assert(m@[pairs@[a].0] == pairs@[a].1);
        }
    }
    m
}

/// Add one occurrence of identity `v` to a table that counts the endpoints
/// of the transactions `pre`.
fn bump(pairs: &mut Vec<(u64, u64)>, v: u64, Ghost(pre): Ghost<Seq<TransactionV>>)
    requires
        pre.len() < 0x4000_0000_0000_0000,
        forall|a: int, b: int|
            0 <= a < b < old(pairs)@.len() ==> (#[trigger] old(pairs)@[a]).0 != (#[trigger] old(
                pairs,
            )@[b]).0,
        forall|a: int|
            0 <= a < old(pairs)@.len() ==> (#[trigger] old(pairs)@[a]).1 == endpoint_count(
                pre,
                old(pairs)@[a].0,
            ) && old(pairs)@[a].1 > 0,
        forall|v2: u64|
            endpoint_count(pre, v2) > 0 ==> exists|a: int|
                0 <= a < old(pairs)@.len() && (#[trigger] old(pairs)@[a]).0 == v2,
    ensures
        forall|a: int, b: int|
            0 <= a < b < final(pairs)@.len() ==> (#[trigger] final(pairs)@[a]).0 != (
            #[trigger] final(pairs)@[b]).0,
        forall|a: int|
            0 <= a < final(pairs)@.len() ==> (#[trigger] final(pairs)@[a]).1 == endpoint_count(
                pre,
                final(pairs)@[a].0,
            ) + (if final(pairs)@[a].0 == v {
                1int
            } else {
                0int
            }) && final(pairs)@[a].1 > 0,
        forall|v2: u64|
            endpoint_count(pre, v2) > 0 || v2 == v ==> exists|a: int|
                0 <= a < final(pairs)@.len() && (#[trigger] final(pairs)@[a]).0 == v2,
{
    proof {
        lemma_endpoint_count_nonneg(pre, v);
    }
    match find_key(pairs, v) {
        Some(idx) => {
            let c = pairs[idx].1;
            proof {
                lemma_endpoint_count_nonneg(pre, pairs@[idx as int].0);
            }
            pairs[idx] = (v, c + 1);
            proof {
                assert(forall|a: int|
                    0 <= a < pairs@.len() ==> (#[trigger] pairs@[a]).0 == old(pairs)@[a].0);
                assert forall|v2: u64|
                    endpoint_count(pre, v2) > 0 || v2 == v implies exists|a: int|
                    0 <= a < pairs@.len() && (#[trigger] pairs@[a]).0 == v2 by {
                    if v2 == v {
                        assert(pairs@[idx as int].0 == v2);
                    } else {
                        let a = choose|a: int|
                            0 <= a < old(pairs)@.len() && (#[trigger] old(pairs)@[a]).0 == v2;
                        assert(pairs@[a].0 == v2);
                    }
                }
            }
        },
        None => {
            pairs.push((v, 1));
            proof {
                assert forall|v2: u64|
                    endpoint_count(pre, v2) > 0 || v2 == v implies exists|a: int|
                    0 <= a < pairs@.len() && (#[trigger] pairs@[a]).0 == v2 by {
                    if v2 == v {
                        assert(pairs@[pairs@.len() - 1].0 == v2);
                    } else {
                        let a = choose|a: int|
                            0 <= a < old(pairs)@.len() && (#[trigger] old(pairs)@[a]).0 == v2;
                        assert(pairs@[a].0 == v2);
                    }
                }
            }
        },
    }
}

/// As [`bump`], but counting the second endpoint: the state already counts
/// `pre` plus one occurrence of `other`, and afterwards counts `ext`.
fn bump2(
    pairs: &mut Vec<(u64, u64)>,
    v: u64,
    Ghost(pre): Ghost<Seq<TransactionV>>,
    Ghost(ext): Ghost<Seq<TransactionV>>,
    Ghost(other): Ghost<u64>,
)
    requires
        pre.len() < 0x4000_0000_0000_0000,
        forall|v2: u64|
            endpoint_count(ext, v2) == endpoint_count(pre, v2) + (if other == v2 {
                1int
            } else {
                0int
            }) + (if v == v2 {
                1int
            } else {
                0int
            }),
        forall|a: int, b: int|
            0 <= a < b < old(pairs)@.len() ==> (#[trigger] old(pairs)@[a]).0 != (#[trigger] old(
                pairs,
            )@[b]).0,
        forall|a: int|
            0 <= a < old(pairs)@.len() ==> (#[trigger] old(pairs)@[a]).1 == endpoint_count(
                pre,
                old(pairs)@[a].0,
            ) + (if old(pairs)@[a].0 == other {
                1int
            } else {
                0int
            }) && old(pairs)@[a].1 > 0,
        forall|v2: u64|
            endpoint_count(pre, v2) > 0 || v2 == other ==> exists|a: int|
                0 <= a < old(pairs)@.len() && (#[trigger] old(pairs)@[a]).0 == v2,
    ensures
        forall|a: int, b: int|
            0 <= a < b < final(pairs)@.len() ==> (#[trigger] final(pairs)@[a]).0 != (
            #[trigger] final(pairs)@[b]).0,
        forall|a: int|
            0 <= a < final(pairs)@.len() ==> (#[trigger] final(pairs)@[a]).1 == endpoint_count(
                ext,
                final(pairs)@[a].0,
            ) && final(pairs)@[a].1 > 0,
        forall|v2: u64|
            endpoint_count(ext, v2) > 0 ==> exists|a: int|
                0 <= a < final(pairs)@.len() && (#[trigger] final(pairs)@[a]).0 == v2,
{
    proof {
        lemma_endpoint_count_nonneg(pre, v);
    }
    match find_key(pairs, v) {
        Some(idx) => {
            let c = pairs[idx].1;
            proof {
                lemma_endpoint_count_nonneg(pre, pairs@[idx as int].0);
            }
            pairs[idx] = (v, c + 1);
            proof {
                assert(forall|a: int|
                    0 <= a < pairs@.len() ==> (#[trigger] pairs@[a]).0 == old(pairs)@[a].0);
                assert forall|v2: u64|
                    endpoint_count(ext, v2) > 0 implies exists|a: int|
                    0 <= a < pairs@.len() && (#[trigger] pairs@[a]).0 == v2 by {
                    lemma_endpoint_count_nonneg(pre, v2);
                    if endpoint_count(pre, v2) > 0 || v2 == other {
                        let a = choose|a: int|
                            0 <= a < old(pairs)@.len() && (#[trigger] old(pairs)@[a]).0 == v2;
                        assert(pairs@[a].0 == v2);
                    } else {
                        assert(v2 == v);
                        assert(pairs@[idx as int].0 == v2);
                    }
                }
            }
        },
        None => {
            pairs.push((v, 1));
            proof {
                assert forall|v2: u64|
                    endpoint_count(ext, v2) > 0 implies exists|a: int|
                    0 <= a < pairs@.len() && (#[trigger] pairs@[a]).0 == v2 by {
                    lemma_endpoint_count_nonneg(pre, v2);
                    if endpoint_count(pre, v2) > 0 || v2 == other {
                        let a = choose|a: int|
                            0 <= a < old(pairs)@.len() && (#[trigger] old(pairs)@[a]).0 == v2;
                        assert(pairs@[a].0 == v2);
                    } else {
                        assert(v2 == v);
                        assert(pairs@[pairs@.len() - 1].0 == v2);
                    }
                }
            }
        },
    }
}


/// Index of the pair keyed `v`, if any.
fn find_key(pairs: &Vec<(u64, u64)>, v: u64) -> (r: Option<usize>)
    ensures
        r is Some ==> r->0 < pairs@.len() && (#[trigger] pairs@[r->0 as int]).0 == v,
        r is None ==> forall|a: int| 0 <= a < pairs@.len() ==> (#[trigger] pairs@[a]).0 != v,
{
    let mut idx: usize = 0;
    while idx < pairs.len()
        invariant
            idx <= pairs@.len(),
            forall|a: int| 0 <= a < idx ==> (#[trigger] pairs@[a]).0 != v,
        decreases pairs@.len() - idx,
    {
        if pairs[idx].0 == v {
            return Some(idx);
        }
        idx += 1;
    }
    None
}

} // verus!
