//! The canonical transaction: a uniform representation of monetary
//! transactions, decoupled from the format of the bank's export. Identity is
//! a digest of the full structural content, so that any field change gives a
//! different identity and deduplication can treat "same content" as "same
//! transaction".

use vstd::prelude::*;

use crate::account::AccountType;
use crate::amount::Amount;
use crate::date::Date;
use crate::errors::ParseError;
use crate::identify::{digest_str, hex_of, str_digest, u128_to_hex, u64_to_hex, ID, Identify};
use crate::node::{append_str_encoded, node_encode, node_encode_string, node_id, str_encode, Node, NodeV};
use crate::strutil::str_eq;

verus! {

use vstd::string::StringExecFns;

/// The direction of a transaction, meaningful only relative to a specific
/// node (the perspective).
#[derive(Debug, Clone, Copy, PartialEq, Eq, Hash, Structural)]
pub enum Direction {
    /// AKA "Credit", "Bij".
    Incoming,
    /// AKA "Debit", "Af".
    Outgoing,
}

/// The two textual values of a direction field, each in two language
/// variants; anything else is rejected.
pub open spec fn spec_parse_direction(s: Seq<char>) -> Option<Direction> {
    if s == "Af"@ || s == "Debit"@ {
        Some(Direction::Outgoing)
    } else if s == "Bij"@ || s == "Credit"@ {
        Some(Direction::Incoming)
    } else {
        None
    }
}

impl Direction {
    /// Parse a direction field.
    pub fn from_str(input: &str) -> (r: Result<Direction, ParseError>)
        ensures
            r is Ok <==> spec_parse_direction(input@) is Some,
            r is Ok ==> r->Ok_0 == spec_parse_direction(input@)->0,
            r is Err ==> r->Err_0 == ParseError::Direction,
    {
        if str_eq(input, "Af") || str_eq(input, "Debit") {
            Ok(Direction::Outgoing)
        } else if str_eq(input, "Bij") || str_eq(input, "Credit") {
            Ok(Direction::Incoming)
        } else {
            Err(ParseError::Direction)
        }
    }
}

/// A uniform representation of one monetary transaction.
#[derive(Debug, Clone, PartialEq, Eq, Hash)]
pub struct Transaction {
    /// The date on which the transaction is registered.
    pub date: Date,
    /// The source of the money transferred in this transaction.
    pub source: Node,
    /// The destination of the money transferred in this transaction.
    pub sink: Node,
    /// The amount of money transferred in this transaction.
    pub amount: Amount,
    /// Tags derived from the raw record's tag field: its `#`-prefixed
    /// tokens, without repetition, in ascending lexicographic order.
    pub inherent_tags: Vec<String>,
    /// An inconsistently formatted free-text description.
    pub description: String,
}

/// Mathematical model of a [`Transaction`].
#[verifier::ext_equal]
pub struct TransactionV {
    pub date: Date,
    pub source: NodeV,
    pub sink: NodeV,
    pub amount: Amount,
    pub inherent_tags: Seq<Seq<char>>,
    pub description: Seq<char>,
}

impl View for Transaction {
    type V = TransactionV;

    open spec fn view(&self) -> TransactionV {
        TransactionV {
            date: self.date,
            source: self.source@,
            sink: self.sink@,
            amount: self.amount,
            inherent_tags: self.inherent_tags.deep_view(),
            description: self.description@,
        }
    }
}

/// Encoding of a tag list, each tag length-prefixed.
pub open spec fn tags_encode(ts: Seq<Seq<char>>) -> Seq<char>
    decreases ts.len(),
{
    if ts.len() == 0 {
        Seq::empty()
    } else {
        tags_encode(ts.drop_last()) + str_encode(ts.last())
    }
}

/// The string whose digest is a transaction's identity: every field enters,
/// variable-length fields are length-prefixed so that field boundaries are
/// unambiguous, and the description is the final component, so two
/// transactions that agree everywhere else have equal encodings iff their
/// descriptions agree.
pub open spec fn tx_encode(t: TransactionV) -> Seq<char> {
    node_encode(t.source) + node_encode(t.sink) + hex_of(t.date.year as nat) + seq!['|'] + hex_of(
        t.date.month as nat,
    ) + seq!['|'] + hex_of(t.date.day as nat) + seq!['|'] + (if t.amount.negative {
        seq!['-']
    } else {
        seq!['+']
    }) + hex_of(t.amount.mantissa as nat) + seq!['|'] + hex_of(t.amount.scale as nat) + seq!['|']
        + hex_of(t.inherent_tags.len()) + seq![':'] + tags_encode(t.inherent_tags)
        + t.description
}

/// A transaction's identity value: the digest of its full content.
pub open spec fn tx_id(t: TransactionV) -> u64 {
    str_digest(tx_encode(t))
}

/// Whether a transaction is incoming or outgoing as seen from `p`: incoming
/// iff `p` is the sink, outgoing iff `p` is the source, and unresolved when
/// `p` matches neither or, pathologically, both endpoints.
pub open spec fn spec_direction(t: TransactionV, p: NodeV) -> Option<Direction> {
    if node_id(t.sink) == node_id(p) && node_id(t.source) == node_id(p) {
        None
    } else if node_id(t.sink) == node_id(p) {
        Some(Direction::Incoming)
    } else if node_id(t.source) == node_id(p) {
        Some(Direction::Outgoing)
    } else {
        None
    }
}

impl Identify for Transaction {
    type IdType = Transaction;

    open spec fn id_spec(&self) -> u64 {
        tx_id(self@)
    }

    fn id(&self) -> (r: ID<Transaction>) {
        ID::new(digest_str(self.encode().as_str()))
    }
}

impl Transaction {
    /// The content string whose digest is this transaction's identity.
    #[verifier::rlimit(50)]
    pub fn encode(&self) -> (r: String)
        ensures
            r@ == tx_encode(self@),
    {
        let mut out = node_encode_string(&self.source);
        out.append(node_encode_string(&self.sink).as_str());
        out.append(u64_to_hex(self.date.year as u64).as_str());
        out.append("|");
        out.append(u64_to_hex(self.date.month as u64).as_str());
        out.append("|");
        out.append(u64_to_hex(self.date.day as u64).as_str());
        out.append("|");
        if self.amount.negative {
            out.append("-");
        } else {
            out.append("+");
        }
        out.append(u128_to_hex(self.amount.mantissa).as_str());
        out.append("|");
        out.append(u64_to_hex(self.amount.scale as u64).as_str());
        out.append("|");
        out.append(u64_to_hex(self.inherent_tags.len() as u64).as_str());
        out.append(":");
        let ghost head = node_encode(self@.source) + node_encode(self@.sink) + hex_of(
            self@.date.year as nat,
        ) + seq!['|'] + hex_of(self@.date.month as nat) + seq!['|'] + hex_of(
            self@.date.day as nat,
        ) + seq!['|'] + (if self@.amount.negative {
            seq!['-']
        } else {
            seq!['+']
        }) + hex_of(self@.amount.mantissa as nat) + seq!['|'] + hex_of(self@.amount.scale as nat)
            + seq!['|'] + hex_of(self@.inherent_tags.len()) + seq![':'];
        proof {
            reveal_strlit("|");
            reveal_strlit(":");
            reveal_strlit("-");
            reveal_strlit("+");
            assert(self@.inherent_tags.subrange(0, 0) =~= Seq::<Seq<char>>::empty());
            assert(tags_encode(Seq::<Seq<char>>::empty()) =~= Seq::<char>::empty());
            assert(out@ =~= head + tags_encode(self@.inherent_tags.subrange(0, 0)));
        }
        let mut i: usize = 0;
        while i < self.inherent_tags.len()
            invariant
                i <= self.inherent_tags@.len(),
                out@ == head + tags_encode(self@.inherent_tags.subrange(0, i as int)),
            decreases self.inherent_tags@.len() - i,
        {
            append_str_encoded(&mut out, self.inherent_tags[i].as_str());
            proof {
                let pre = self@.inherent_tags.subrange(0, i as int);
                let ext = self@.inherent_tags.subrange(0, (i + 1) as int);
                assert(ext.drop_last() =~= pre);
                assert(ext.last() == self@.inherent_tags[i as int]);
                assert(self@.inherent_tags[i as int] == self.inherent_tags@[i as int]@);
                assert(tags_encode(ext) == tags_encode(pre) + str_encode(
                    self@.inherent_tags[i as int],
                ));
            }
            i += 1;
        }
        out.append(self.description.as_str());
        proof {
            assert(self@.inherent_tags.subrange(0, self@.inherent_tags.len() as int)
                =~= self@.inherent_tags);
            assert(out@ =~= tx_encode(self@));
        }
        out
    }

    /// A copy of this transaction with the same content.
    pub fn duplicate(&self) -> (r: Transaction)
        ensures
            r@ == self@,
    {
        let mut tags: Vec<String> = Vec::new();
        let mut i: usize = 0;
        while i < self.inherent_tags.len()
            invariant
                i <= self.inherent_tags@.len(),
                tags@.len() == i,
                forall|k: int| 0 <= k < i ==> #[trigger] tags@[k]@ == self.inherent_tags@[k]@,
            decreases self.inherent_tags@.len() - i,
        {
            let elem = self.inherent_tags[i].clone();
            tags.push(elem);
            i += 1;
        }
        proof {
            assert forall|k: int| 0 <= k < tags@.len() implies #[trigger] tags.deep_view()[k]
                == self.inherent_tags.deep_view()[k] by {
                assert(tags.deep_view()[k] == tags@[k]@);
                assert(self.inherent_tags.deep_view()[k] == self.inherent_tags@[k]@);
            }
            assert(tags.deep_view() =~= self.inherent_tags.deep_view());
        }
        let r = Transaction {
            date: self.date,
            source: self.source.duplicate(),
            sink: self.sink.duplicate(),
            amount: self.amount,
            inherent_tags: tags,
            description: self.description.clone(),
        };
        proof {
            assert(r@ =~= self@);
        }
        r
    }

    /// The tags derived from the raw record this transaction came from.
    pub fn tags(&self) -> (r: &Vec<String>)
        ensures
            r == &self.inherent_tags,
    {
        &self.inherent_tags
    }

    /// The direction of this transaction as seen from `perspective`: `None`
    /// when the perspective matches neither endpoint or both.
    pub fn direction(&self, perspective: &Node) -> (r: Option<Direction>)
        ensures
            r == spec_direction(self@, perspective@),
    {
        let p = perspective.id();
        let sink_id = self.sink.id();
        let source_id = self.source.id();
        if sink_id.value == p.value && source_id.value == p.value {
            None
        } else if sink_id.value == p.value {
            Some(Direction::Incoming)
        } else if source_id.value == p.value {
            Some(Direction::Outgoing)
        } else {
            None
        }
    }

    /// Equality of the full content of two transactions; this is the notion
    /// the store deduplicates by.
    pub fn same(&self, other: &Transaction) -> (r: bool)
        ensures
            r == (self@ == other@),
    {
        let de = self.date == other.date;
        let ae = self.amount == other.amount;
        let se = self.source.same(&other.source);
        let ke = self.sink.same(&other.sink);
        let te = tags_eq(&self.inherent_tags, &other.inherent_tags);
        let ce = str_eq(self.description.as_str(), other.description.as_str());
        if de && ae && se && ke && te && ce {
            proof {
                assert(self@ =~= other@);
            }
            true
        } else {
            false
        }
    }
}

/// Element-wise equality of two tag lists.
pub fn tags_eq(a: &Vec<String>, b: &Vec<String>) -> (r: bool)
    ensures
        r == (a.deep_view() == b.deep_view()),
{
    proof {
        assert(a.deep_view().len() == a@.len());
        assert(b.deep_view().len() == b@.len());
    }
    if a.len() != b.len() {
        return false;
    }
    let mut i: usize = 0;
    while i < a.len()
        invariant
            i <= a@.len(),
            a@.len() == b@.len(),
            forall|j: int| 0 <= j < i ==> a.deep_view()[j] == b.deep_view()[j],
        decreases a@.len() - i,
    {
        if !str_eq(a[i].as_str(), b[i].as_str()) {
            proof {
                assert(a.deep_view()[i as int] == a@[i as int]@);
                assert(b.deep_view()[i as int] == b@[i as int]@);
            }
            return false;
        }
        proof {
            assert(a.deep_view()[i as int] == a@[i as int]@);
            assert(b.deep_view()[i as int] == b@[i as int]@);
        }
        i += 1;
    }
    proof {
        assert(a.deep_view() =~= b.deep_view());
    }
    true
}

} // verus!
