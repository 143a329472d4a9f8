//! A node is an endpoint of money flow. Nodes wrapping an account or
//! sub-account re-tag the wrapped entity's identity instead of hashing the
//! composite again; the plain-string variants hash the carried string.

use vstd::prelude::*;

use crate::account::{AccountType, 
    account_display, account_id, sub_account_display, sub_account_id, Account, AccountV,
    SubAccount, SubAccountV,
};
use crate::identify::{digest_str, hex_of, str_digest, u64_to_hex, ID, Identify};
use crate::strutil::{push_char, str_eq};

verus! {

use vstd::string::StringExecFns;

/// A point between which money flows during transactions.
#[derive(Debug, Clone, PartialEq, Eq, Hash)]
pub enum Node {
    /// A fully qualified bank account with an IBAN.
    ProperAccount(Account),
    /// A sub-account of a `ProperAccount`, without an IBAN of its own;
    /// most likely a savings or brokerage account.
    SubAccount(SubAccount),
    /// A payment terminal in a shop or restaurant: a card or phone payment.
    Terminal(String),
    /// Where numbers become cold, hard cash.
    Atm(String),
    /// Other, hard to identify nodes: bank charges for services, deposits.
    Other(String),
}

/// Mathematical model of a [`Node`].
#[verifier::ext_equal]
pub enum NodeV {
    ProperAccount(AccountV),
    SubAccount(SubAccountV),
    Terminal(Seq<char>),
    Atm(Seq<char>),
    Other(Seq<char>),
}

impl View for Node {
    type V = NodeV;

    open spec fn view(&self) -> NodeV {
        match self {
            Node::ProperAccount(a) => NodeV::ProperAccount(a@),
            Node::SubAccount(a) => NodeV::SubAccount(a@),
            Node::Terminal(s) => NodeV::Terminal(s@),
            Node::Atm(s) => NodeV::Atm(s@),
            Node::Other(s) => NodeV::Other(s@),
        }
    }
}

/// A node's identity value. Wrapping variants delegate to the wrapped
/// entity's identity; plain variants hash the carried string.
pub open spec fn node_id(n: NodeV) -> u64 {
    match n {
        NodeV::ProperAccount(a) => account_id(a),
        NodeV::SubAccount(a) => sub_account_id(a),
        NodeV::Terminal(s) => str_digest(s),
        NodeV::Atm(s) => str_digest(s),
        NodeV::Other(s) => str_digest(s),
    }
}

impl Identify for Node {
    type IdType = Node;

    open spec fn id_spec(&self) -> u64 {
        node_id(self@)
    }

    fn id(&self) -> (r: ID<Node>) {
        match self {
            Node::ProperAccount(acc) => Self::transfer_from(acc.id()),
            Node::SubAccount(acc) => Self::transfer_from(acc.id()),
            Node::Terminal(s) => ID::new(digest_str(s.as_str())),
            Node::Atm(s) => ID::new(digest_str(s.as_str())),
            Node::Other(s) => ID::new(digest_str(s.as_str())),
        }
    }
}

/// What [`Node::name`] renders for each variant.
pub open spec fn node_name(n: NodeV) -> Seq<char> {
    match n {
        NodeV::ProperAccount(a) => "(PA) "@ + a.name,
        NodeV::SubAccount(a) => "(SA) "@ + a.name,
        NodeV::Terminal(s) => "Payment Terminal"@,
        NodeV::Atm(s) => "ATM"@,
        NodeV::Other(s) => s,
    }
}

/// What [`Node::display_details`] renders for each variant.
pub open spec fn node_display(n: NodeV) -> Seq<char> {
    match n {
        NodeV::ProperAccount(a) => account_display(a),
        NodeV::SubAccount(a) => sub_account_display(a),
        NodeV::Terminal(s) => seq!['*'] + hex_of(node_id(n) as nat) + seq!['*', ' '] + s
            + " (Payment Terminal)"@,
        NodeV::Atm(s) => seq!['^'] + hex_of(node_id(n) as nat) + seq!['^', ' '] + s + " (ATM)"@,
        NodeV::Other(s) => s,
    }
}

impl Node {
    /// A short human name for the node kind, or the carried text.
    pub fn name(&self) -> (r: String)
        ensures
            r@ == node_name(self@),
    {
        match self {
            Node::Atm(_) => String::from_str("ATM"),
            Node::ProperAccount(acc) => {
                let mut out = String::from_str("(PA) ");
                out.append(acc.name.as_str());
                out
            },
            Node::SubAccount(acc) => {
                let mut out = String::from_str("(SA) ");
                out.append(acc.name.as_str());
                out
            },
            Node::Terminal(_) => String::from_str("Payment Terminal"),
            Node::Other(id) => id.clone(),
        }
    }

    /// Render the node with a human-distinguishable tag around its identity.
    pub fn display_details(&self) -> (r: String)
        ensures
            r@ == node_display(self@),
    {
        match self {
            Node::Atm(id) => {
                let mut out = String::from_str("^");
                out.append(u64_to_hex(digest_str(id.as_str())).as_str());
                out.append("^ ");
                out.append(id.as_str());
                out.append(" (ATM)");
                proof {
                    reveal_strlit("^");
                    reveal_strlit("^ ");
                    assert(out@ =~= node_display(self@));
                }
                out
            },
            Node::ProperAccount(acc) => acc.display(),
            Node::SubAccount(acc) => acc.display(),
            Node::Terminal(id) => {
                let mut out = String::from_str("*");
                out.append(u64_to_hex(digest_str(id.as_str())).as_str());
                out.append("* ");
                out.append(id.as_str());
                out.append(" (Payment Terminal)");
                proof {
                    reveal_strlit("*");
                    reveal_strlit("* ");
                    assert(out@ =~= node_display(self@));
                }
                out
            },
            Node::Other(id) => id.clone(),
        }
    }

    /// A copy of this node with the same content.
    pub fn duplicate(&self) -> (r: Node)
        ensures
            r@ == self@,
    {
        match self {
            Node::ProperAccount(a) => Node::ProperAccount(a.duplicate()),
            Node::SubAccount(a) => Node::SubAccount(a.duplicate()),
            Node::Terminal(s) => Node::Terminal(s.clone()),
            Node::Atm(s) => Node::Atm(s.clone()),
            Node::Other(s) => Node::Other(s.clone()),
        }
    }

    /// Encoding of this node for the transaction identity digest.
    pub fn encode(&self) -> (r: String)
        ensures
            r@ == node_encode(self@),
    {
        node_encode_string(self)
    }

    /// Equality of the full content of two nodes.
    pub fn same(&self, other: &Node) -> (r: bool)
        ensures
            r == (self@ == other@),
    {
        match (self, other) {
            (Node::ProperAccount(a), Node::ProperAccount(b)) => a.same(b),
            (Node::SubAccount(a), Node::SubAccount(b)) => a.same(b),
            (Node::Terminal(a), Node::Terminal(b)) => str_eq(a.as_str(), b.as_str()),
            (Node::Atm(a), Node::Atm(b)) => str_eq(a.as_str(), b.as_str()),
            (Node::Other(a), Node::Other(b)) => str_eq(a.as_str(), b.as_str()),
            _ => false,
        }
    }
}

/// One character standing for an account-type option in the identity
/// encoding.
pub open spec fn account_type_char(t: Option<AccountType>) -> char {
    match t {
        None => 'N',
        Some(AccountType::Checking) => 'C',
        Some(AccountType::Saving) => 'S',
        Some(AccountType::Deposit) => 'D',
        Some(AccountType::Brokerage) => 'B',
        Some(AccountType::Unknown) => 'U',
    }
}

/// Length-prefixed encoding of one string field for the identity digests:
/// the length in hex, a colon, then the characters. The prefix makes field
/// boundaries unambiguous, so different field contents never collide by
/// mere concatenation.
pub open spec fn str_encode(s: Seq<char>) -> Seq<char> {
    hex_of(s.len()) + seq![':'] + s
}

/// Append the length-prefixed encoding of `s` to `out`.
pub fn append_str_encoded(out: &mut String, s: &str)
    ensures
        final(out)@ == old(out)@ + str_encode(s@),
{
    let n = s.unicode_len();
    out.append(u64_to_hex(n as u64).as_str());
    out.append(":");
    out.append(s);
    proof {
        reveal_strlit(":");
        assert(out@ =~= old(out)@ + str_encode(s@));
    }
}

/// Encoding of a node for the transaction identity digest: a variant tag,
/// then every field of the node, each length-prefixed.
pub open spec fn node_encode(n: NodeV) -> Seq<char> {
    match n {
        NodeV::ProperAccount(a) => seq!['P'] + str_encode(a.iban) + str_encode(a.name),
        NodeV::SubAccount(a) => seq!['S'] + str_encode(a.bsan) + str_encode(a.name) + str_encode(
            a.parent_account.iban,
        ) + str_encode(a.parent_account.name) + seq![account_type_char(a.account_type)],
        NodeV::Terminal(s) => seq!['T'] + str_encode(s),
        NodeV::Atm(s) => seq!['A'] + str_encode(s),
        NodeV::Other(s) => seq!['O'] + str_encode(s),
    }
}

fn account_type_tag(t: &Option<AccountType>) -> (c: char)
    ensures
        c == account_type_char(*t),
{
    match t {
        None => 'N',
        Some(AccountType::Checking) => 'C',
        Some(AccountType::Saving) => 'S',
        Some(AccountType::Deposit) => 'D',
        Some(AccountType::Brokerage) => 'B',
        Some(AccountType::Unknown) => 'U',
    }
}

/// Build the identity encoding of a node.
pub fn node_encode_string(n: &Node) -> (r: String)
    ensures
        r@ == node_encode(n@),
{
    match n {
        Node::ProperAccount(a) => {
            let mut out = String::from_str("P");
            append_str_encoded(&mut out, a.iban.as_str());
            append_str_encoded(&mut out, a.name.as_str());
            proof {
                reveal_strlit("P");
                assert(out@ =~= node_encode(n@));
            }
            out
        },
        Node::SubAccount(a) => {
            let mut out = String::from_str("S");
            append_str_encoded(&mut out, a.bsan.as_str());
            append_str_encoded(&mut out, a.name.as_str());
            append_str_encoded(&mut out, a.parent_account.iban.as_str());
            append_str_encoded(&mut out, a.parent_account.name.as_str());
            push_char(&mut out, account_type_tag(&a.account_type));
            proof {
                reveal_strlit("S");
                assert(out@ =~= node_encode(n@));
            }
            out
        },
        Node::Terminal(s) => {
            let mut out = String::from_str("T");
            append_str_encoded(&mut out, s.as_str());
            proof {
                reveal_strlit("T");
                assert(out@ =~= node_encode(n@));
            }
            out
        },
        Node::Atm(s) => {
            let mut out = String::from_str("A");
            append_str_encoded(&mut out, s.as_str());
            proof {
                reveal_strlit("A");
                assert(out@ =~= node_encode(n@));
            }
            out
        },
        Node::Other(s) => {
            let mut out = String::from_str("O");
            append_str_encoded(&mut out, s.as_str());
            proof {
                reveal_strlit("O");
                assert(out@ =~= node_encode(n@));
            }
            out
        },
    }
}

} // verus!
