//! Bank accounts and sub-accounts. An account's identity is the digest of
//! its IBAN alone; a sub-account's the digest of its BSAN alone. Display
//! names never enter an identity.

use vstd::prelude::*;

use crate::identify::{digest_str, hex_of, str_digest, u64_to_hex, ID, Identify};
use crate::strutil::str_eq;

verus! {

use vstd::string::StringExecFns;

/// The closed set of account categories.
#[derive(Debug, Clone, Copy, PartialEq, Eq, Hash, Structural)]
pub enum AccountType {
    /// Everyday account: pay bills, buy stuff, receive salary.
    Checking,
    /// A place to save money, usually at some interest.
    Saving,
    /// Savings locked for a fixed period, usually at higher interest.
    Deposit,
    /// Holds the money that participates in the stock market.
    Brokerage,
    Unknown,
}

/// A proper bank account, fully qualified by an IBAN.
#[derive(Debug, Clone, PartialEq, Eq, Hash)]
pub struct Account {
    pub iban: String,
    pub name: String,
}

/// Mathematical model of an [`Account`].
#[verifier::ext_equal]
pub struct AccountV {
    pub iban: Seq<char>,
    pub name: Seq<char>,
}

impl View for Account {
    type V = AccountV;

    open spec fn view(&self) -> AccountV {
        AccountV { iban: self.iban@, name: self.name@ }
    }
}

/// An account's identity value: the digest of its IBAN, never of its name.
pub open spec fn account_id(a: AccountV) -> u64 {
    str_digest(a.iban)
}

impl Identify for Account {
    type IdType = Account;

    open spec fn id_spec(&self) -> u64 {
        account_id(self@)
    }

    /// Hash the IBAN alone, for uniformity.
    fn id(&self) -> (r: ID<Account>) {
        ID::new(digest_str(self.iban.as_str()))
    }
}

/// What [`Account::display`] renders: the identity in brackets, then the name.
pub open spec fn account_display(a: AccountV) -> Seq<char> {
    seq!['['] + hex_of(account_id(a) as nat) + seq![']', ' '] + a.name
}

impl Account {
    /// Equality of the defining and display content of two accounts.
    pub fn same(&self, other: &Account) -> (r: bool)
        ensures
            r == (self@ == other@),
    {
        let ie = str_eq(self.iban.as_str(), other.iban.as_str());
        let ne = str_eq(self.name.as_str(), other.name.as_str());
        if ie && ne {
            proof {
                assert(self@ =~= other@);
            }
            true
        } else {
            false
        }
    }

    /// A copy of this account with the same content.
    pub fn duplicate(&self) -> (r: Account)
        ensures
            r@ == self@,
    {
        Account { iban: self.iban.clone(), name: self.name.clone() }
    }

    /// Render the account as `"[<identity in hex>] <name>"`.
    pub fn display(&self) -> (r: String)
        ensures
            r@ == account_display(self@),
    {
        let mut out = String::from_str("[");
        out.append(u64_to_hex(digest_str(self.iban.as_str())).as_str());
        out.append("] ");
        out.append(self.name.as_str());
        proof {
            reveal_strlit("[");
            reveal_strlit("] ");
            assert(out@ =~= account_display(self@));
        }
        out
    }
}

/// A sub-ledger (savings, brokerage) tied to a proper account; it has no
/// IBAN of its own, only a bank sub-account number. The parent account is
/// informational and never part of the identity.
#[derive(Debug, Clone, PartialEq, Eq, Hash)]
pub struct SubAccount {
    /// Bank sub-account number.
    pub bsan: String,
    pub name: String,
    pub parent_account: Account,
    pub account_type: Option<AccountType>,
}

/// Mathematical model of a [`SubAccount`].
#[verifier::ext_equal]
pub struct SubAccountV {
    pub bsan: Seq<char>,
    pub name: Seq<char>,
    pub parent_account: AccountV,
    pub account_type: Option<AccountType>,
}

impl View for SubAccount {
    type V = SubAccountV;

    open spec fn view(&self) -> SubAccountV {
        SubAccountV {
            bsan: self.bsan@,
            name: self.name@,
            parent_account: self.parent_account@,
            account_type: self.account_type,
        }
    }
}

/// A sub-account's identity value: the digest of its BSAN alone.
pub open spec fn sub_account_id(a: SubAccountV) -> u64 {
    str_digest(a.bsan)
}

impl Identify for SubAccount {
    type IdType = SubAccount;

    open spec fn id_spec(&self) -> u64 {
        sub_account_id(self@)
    }

    /// Hash the BSAN alone, for uniformity.
    fn id(&self) -> (r: ID<SubAccount>) {
        ID::new(digest_str(self.bsan.as_str()))
    }
}

/// What [`SubAccount::display`] renders: parent identity, own identity, name.
pub open spec fn sub_account_display(a: SubAccountV) -> Seq<char> {
    seq!['['] + hex_of(account_id(a.parent_account) as nat) + seq!['/', ' '] + hex_of(
        sub_account_id(a) as nat,
    ) + seq![']', ' '] + a.name
}

impl SubAccount {
    /// Equality of the full content of two sub-accounts.
    pub fn same(&self, other: &SubAccount) -> (r: bool)
        ensures
            r == (self@ == other@),
    {
        let be = str_eq(self.bsan.as_str(), other.bsan.as_str());
        let ne = str_eq(self.name.as_str(), other.name.as_str());
        let pe = self.parent_account.same(&other.parent_account);
        let te = match (self.account_type, other.account_type) {
            (None, None) => true,
            (Some(a), Some(b)) => a == b,
            _ => false,
        };
        if be && ne && pe && te {
            proof {
                assert(self@ =~= other@);
            }
            true
        } else {
            false
        }
    }

    /// A copy of this sub-account with the same content.
    pub fn duplicate(&self) -> (r: SubAccount)
        ensures
            r@ == self@,
    {
        SubAccount {
            bsan: self.bsan.clone(),
            name: self.name.clone(),
            parent_account: self.parent_account.duplicate(),
            account_type: self.account_type,
        }
    }

    /// Render the sub-account as `"[<parent id>/ <id>] <name>"`.
    pub fn display(&self) -> (r: String)
        ensures
            r@ == sub_account_display(self@),
    {
        let mut out = String::from_str("[");
        out.append(u64_to_hex(digest_str(self.parent_account.iban.as_str())).as_str());
        out.append("/ ");
        out.append(u64_to_hex(digest_str(self.bsan.as_str())).as_str());
        out.append("] ");
        out.append(self.name.as_str());
        proof {
            reveal_strlit("[");
            reveal_strlit("/ ");
            reveal_strlit("] ");
            assert(out@ =~= sub_account_display(self@));
        }
        out
    }
}

} // verus!
