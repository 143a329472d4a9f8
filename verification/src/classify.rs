//! The classifier: one raw bank-export row resolved into a canonical
//! transaction. The user's own account takes the endpoint given by the
//! direction flag; the opposite endpoint is resolved by an ordered set of
//! heuristic rules whose order is load-bearing: terminal and cash codes
//! first, then bank service charges and deposits, then the counterparty
//! field as an IBAN or a numeric brokerage token, and last the savings
//! sub-account pattern of the description.

use vstd::prelude::*;

use crate::account::{Account, AccountType, AccountV, SubAccount, SubAccountV};
use crate::amount::Amount;
use crate::date::Date;
use crate::node::{Node, NodeV};
use crate::patterns::{extract_tags, find_savings_token, find_term_token, savings_token, spec_tags, term_token};
use crate::strutil::is_digit_char;
use crate::transaction::{Direction, Transaction, TransactionV};

verus! {

use vstd::string::StrSliceExecFns;
use vstd::string::StringExecFns;

/// The closed set of bank transaction codes of the supported export.
#[derive(Debug, Clone, Copy, PartialEq, Eq, Hash, Structural)]
pub enum Code {
    AC,
    BA,
    DV,
    FL,
    GF,
    GM,
    GT,
    IC,
    ID,
    OV,
    PK,
    PO,
    ST,
    VZ,
}

/// A slightly processed export row of a current account: the raw input of
/// the classifier.
#[derive(Debug, Clone, PartialEq, Eq, Hash)]
pub struct IngCurrentAccount {
    /// The day the transaction was registered.
    pub date: Date,
    /// Name of the counterparty, often not very descriptive.
    pub name: String,
    /// The user's own IBAN.
    pub account: String,
    /// An IBAN, a numeric sub-account token, or absent.
    pub counter_party: Option<String>,
    /// The bank's transaction code.
    pub code: Code,
    /// Whether money left or entered the own account.
    pub direction: Direction,
    /// The amount, always non-negative: the sign lives in `direction`.
    pub amount: Amount,
    /// Full name of the code.
    pub transaction_type: String,
    /// Free text; may embed a terminal or sub-account token.
    pub description: String,
    /// Balance of the own account after this transaction.
    pub balance: Amount,
    /// Free text holding zero or more `#`-prefixed tags.
    pub tags: String,
}

/// Mathematical model of a raw row.
#[verifier::ext_equal]
pub struct RecordV {
    pub date: Date,
    pub name: Seq<char>,
    pub account: Seq<char>,
    pub counter_party: Option<Seq<char>>,
    pub code: Code,
    pub direction: Direction,
    pub amount: Amount,
    pub transaction_type: Seq<char>,
    pub description: Seq<char>,
    pub balance: Amount,
    pub tags: Seq<char>,
}

impl View for IngCurrentAccount {
    type V = RecordV;

    open spec fn view(&self) -> RecordV {
        RecordV {
            date: self.date,
            name: self.name@,
            account: self.account@,
            counter_party: match self.counter_party {
                Option::Some(s) => Option::Some(s@),
                Option::None => Option::None,
            },
            code: self.code,
            direction: self.direction,
            amount: self.amount,
            transaction_type: self.transaction_type@,
            description: self.description@,
            balance: self.balance,
            tags: self.tags@,
        }
    }
}

/// No heuristic rule matched: the raw record is carried for diagnosis.
#[derive(Debug, Clone, PartialEq, Eq)]
pub struct ClassificationError {
    pub record: IngCurrentAccount,
}

/// What `iban::Iban::parse` accepts and returns. The result depends on the
/// characters of the input alone: validation and normalization of an IBAN
/// string into its electronic format.
pub uninterp spec fn spec_parse_iban(s: Seq<char>) -> Option<Seq<char>>;

/// Relies on `iban::Iban::parse`: it validates a string as an IBAN
/// (country code, check digits, BBAN shape, checksum) and returns the
/// normalized electronic-format string, or an error for anything invalid.
#[verifier::external_body]
fn parse_iban(s: &str) -> (r: Option<String>)
    ensures
        r is Some <==> spec_parse_iban(s@) is Some,
        r is Some ==> r->0@ == spec_parse_iban(s@)->0,
{
    match iban::Iban::parse(s) {
        Ok(v) => Some(v.as_str().to_string()),
        Err(_) => None,
    }
}

/// The user's own account as the classifier builds it from a row.
pub open spec fn my_account(r: RecordV) -> AccountV {
    AccountV { iban: r.account, name: "My Account"@ }
}

/// Some character of `s` is a decimal digit.
pub open spec fn contains_digit(s: Seq<char>) -> bool {
    exists|i: int| 0 <= i < s.len() && is_digit_char(s[i])
}

fn str_contains_digit(s: &str) -> (r: bool)
    ensures
        r == contains_digit(s@),
{
    let n = s.unicode_len();
    let mut i: usize = 0;
    while i < n
        invariant
            i <= n == s@.len(),
            forall|k: int| 0 <= k < i ==> !is_digit_char(s@[k]),
        decreases n - i,
    {
        if crate::strutil::digit_char(s.get_char(i)) {
            return true;
        }
        i += 1;
    }
    false
}

/// The terminal token of a description, or the literal fallback token that
/// stands in when no terminal identifier can be extracted.
pub open spec fn term_or_fallback(d: Seq<char>) -> Seq<char> {
    match term_token(d) {
        Option::Some(t) => t,
        Option::None => "UNKNOWN_TERM_ID"@,
    }
}

/// The ordered heuristic resolution of the counterparty endpoint, or `None`
/// when no rule matches.
pub open spec fn spec_determine_node(r: RecordV) -> Option<NodeV> {
    if r.code == Code::BA {
        Option::Some(NodeV::Terminal(term_or_fallback(r.description)))
    } else if r.code == Code::GM {
        Option::Some(NodeV::Atm(term_or_fallback(r.description)))
    } else if r.code == Code::DV {
        Option::Some(NodeV::Other("ING"@))
    } else if r.code == Code::ST {
        Option::Some(NodeV::Other("Deposit"@))
    } else if r.counter_party is Some && spec_parse_iban(r.counter_party->0) is Some {
        Option::Some(
            NodeV::ProperAccount(
                AccountV { iban: spec_parse_iban(r.counter_party->0)->0, name: r.name },
            ),
        )
    } else if r.counter_party is Some && contains_digit(r.counter_party->0) {
        Option::Some(
            NodeV::SubAccount(
                SubAccountV {
                    bsan: r.counter_party->0,
                    name: r.name,
                    parent_account: my_account(r),
                    account_type: Option::Some(AccountType::Brokerage),
                },
            ),
        )
    } else if savings_token(r.description) is Some {
        Option::Some(
            NodeV::SubAccount(
                SubAccountV {
                    bsan: savings_token(r.description)->0,
                    name: r.name,
                    parent_account: my_account(r),
                    account_type: Option::Some(AccountType::Saving),
                },
            ),
        )
    } else {
        Option::None
    }
}

/// The endpoint money flows to: the own account for an incoming row, else
/// the resolved counterparty.
pub open spec fn spec_sink(r: RecordV) -> Option<NodeV> {
    match r.direction {
        Direction::Incoming => Option::Some(NodeV::ProperAccount(my_account(r))),
        Direction::Outgoing => spec_determine_node(r),
    }
}

/// The endpoint money flows from: the own account for an outgoing row, else
/// the resolved counterparty.
pub open spec fn spec_source(r: RecordV) -> Option<NodeV> {
    match r.direction {
        Direction::Outgoing => Option::Some(NodeV::ProperAccount(my_account(r))),
        Direction::Incoming => spec_determine_node(r),
    }
}

/// What classification yields for a row: both endpoints resolved, the
/// amount and description carried over, and the tag field tokenized.
pub open spec fn spec_classify(r: RecordV) -> Option<TransactionV> {
    if spec_source(r) is Some && spec_sink(r) is Some {
        Option::Some(
            TransactionV {
                date: r.date,
                source: spec_source(r)->0,
                sink: spec_sink(r)->0,
                amount: r.amount,
                inherent_tags: spec_tags(r.tags),
                description: r.description,
            },
        )
    } else {
        Option::None
    }
}

impl IngCurrentAccount {
    /// A copy of this row with the same content.
    pub fn duplicate(&self) -> (r: IngCurrentAccount)
        ensures
            r@ == self@,
    {
        let r = IngCurrentAccount {
            date: self.date,
            name: self.name.clone(),
            account: self.account.clone(),
            counter_party: match &self.counter_party {
                Option::Some(s) => Option::Some(s.clone()),
                Option::None => Option::None,
            },
            code: self.code,
            direction: self.direction,
            amount: self.amount,
            transaction_type: self.transaction_type.clone(),
            description: self.description.clone(),
            balance: self.balance,
            tags: self.tags.clone(),
        };
        proof {
            assert(r@ =~= self@);
        }
        r
    }
}

/// The own account of a row, as a node.
fn own_account_node(r: &IngCurrentAccount) -> (n: Node)
    ensures
        n@ == NodeV::ProperAccount(my_account(r@)),
{
    Node::ProperAccount(
        Account { iban: r.account.clone(), name: String::from_str("My Account") },
    )
}

/// Resolve the counterparty endpoint of a row by the ordered heuristics.
pub fn determine_node_type(r: &IngCurrentAccount) -> (res: Result<Node, ClassificationError>)
    ensures
        res is Ok <==> spec_determine_node(r@) is Some,
        res is Ok ==> res->Ok_0@ == spec_determine_node(r@)->0,
        res is Err ==> res->Err_0.record@ == r@,
{
    if r.code == Code::BA || r.code == Code::GM {
        let token = match find_term_token(r.description.as_str()) {
            Option::Some(t) => t,
            Option::None => String::from_str("UNKNOWN_TERM_ID"),
        };
        if r.code == Code::BA {
            return Ok(Node::Terminal(token));
        }
        return Ok(Node::Atm(token));
    }
    if r.code == Code::DV {
        return Ok(Node::Other(String::from_str("ING")));
    }
    if r.code == Code::ST {
        return Ok(Node::Other(String::from_str("Deposit")));
    }
    match &r.counter_party {
        Option::Some(identifier) => {
            match parse_iban(identifier.as_str()) {
                Option::Some(normalized) => {
                    return Ok(
                        Node::ProperAccount(
                            Account { iban: normalized, name: r.name.clone() },
                        ),
                    );
                },
                Option::None => {},
            }
            if str_contains_digit(identifier.as_str()) {
                return Ok(
                    Node::SubAccount(
                        SubAccount {
                            bsan: identifier.clone(),
                            name: r.name.clone(),
                            parent_account: Account {
                                iban: r.account.clone(),
                                name: String::from_str("My Account"),
                            },
                            account_type: Some(AccountType::Brokerage),
                        },
                    ),
                );
            }
        },
        Option::None => {},
    }
    match find_savings_token(r.description.as_str()) {
        Option::Some(token) => Ok(
            Node::SubAccount(
                SubAccount {
                    bsan: token,
                    name: r.name.clone(),
                    parent_account: Account {
                        iban: r.account.clone(),
                        name: String::from_str("My Account"),
                    },
                    account_type: Some(AccountType::Saving),
                },
            ),
        ),
        Option::None => Err(ClassificationError { record: r.duplicate() }),
    }
}

/// The endpoint money flows to in this row.
pub fn sink(r: &IngCurrentAccount) -> (res: Result<Node, ClassificationError>)
    ensures
        res is Ok <==> spec_sink(r@) is Some,
        res is Ok ==> res->Ok_0@ == spec_sink(r@)->0,
        res is Err ==> res->Err_0.record@ == r@,
{
    match r.direction {
        Direction::Incoming => Ok(own_account_node(r)),
        Direction::Outgoing => determine_node_type(r),
    }
}

/// The endpoint money flows from in this row.
pub fn source(r: &IngCurrentAccount) -> (res: Result<Node, ClassificationError>)
    ensures
        res is Ok <==> spec_source(r@) is Some,
        res is Ok ==> res->Ok_0@ == spec_source(r@)->0,
        res is Err ==> res->Err_0.record@ == r@,
{
    match r.direction {
        Direction::Outgoing => Ok(own_account_node(r)),
        Direction::Incoming => determine_node_type(r),
    }
}

/// The `#`-prefixed tags of a row's tag field, each kept once, in
/// ascending lexicographic order.
pub fn inherent_tags(r: &IngCurrentAccount) -> (v: Vec<String>)
    ensures
        v.deep_view() == spec_tags(r@.tags),
{
    extract_tags(r.tags.as_str())
}

impl Transaction {
    /// Classify one raw row into a canonical transaction, or fail with the
    /// row attached when no heuristic rule resolves the counterparty.
    pub fn from_record(r: &IngCurrentAccount) -> (res: Result<Transaction, ClassificationError>)
        ensures
            res is Ok <==> spec_classify(r@) is Some,
            res is Ok ==> res->Ok_0@ == spec_classify(r@)->0,
            res is Err ==> res->Err_0.record@ == r@,
    {
        let source_node = match source(r) {
            Ok(n) => n,
            Err(e) => {
                return Err(e);
            },
        };
        let sink_node = match sink(r) {
            Ok(n) => n,
            Err(e) => {
                return Err(e);
            },
        };
        let t = Transaction {
            date: r.date,
            source: source_node,
            sink: sink_node,
            amount: r.amount,
            inherent_tags: inherent_tags(r),
            description: r.description.clone(),
        };
        proof {
            assert(t@ =~= spec_classify(r@)->0);
        }
        Ok(t)
    }
}

} // verus!
