//! Accounts, their normal-balance polarity, and the summary of balances by
//! account type.

use crate::money::{Money, OutOfRange};
use vstd::prelude::*;

verus! {

/// The five classes of account in the chart of accounts.
#[derive(Clone, Copy, Debug, PartialEq, Eq, Structural)]
pub enum AccountType {
    Asset,
    Liability,
    Equity,
    Revenue,
    Expense,
}

impl AccountType {
    /// Whether accounts of this type grow on the debit side: assets and
    /// expenses do, liabilities, equity and revenue grow on the credit side.
    pub open spec fn debit_normal(self) -> bool {
        self is Asset || self is Expense
    }

    /// The place of the type in reports: assets first, then liabilities,
    /// equity, revenue and expenses.
    pub open spec fn spec_rank(self) -> int {
        match self {
            AccountType::Asset => 1,
            AccountType::Liability => 2,
            AccountType::Equity => 3,
            AccountType::Revenue => 4,
            AccountType::Expense => 5,
        }
    }

    /// Returns true if this account type normally has a debit balance.
    pub fn is_debit_normal(&self) -> (r: bool)
        ensures
            r == self.debit_normal(),
    {
        matches!(self, AccountType::Asset | AccountType::Expense)
    }

    /// Returns true if this account type normally has a credit balance.
    pub fn is_credit_normal(&self) -> (r: bool)
        ensures
            r == !self.debit_normal(),
    {
        matches!(self, AccountType::Liability | AccountType::Equity | AccountType::Revenue)
    }

    /// The place of the type in reports, from 1 for assets to 5 for expenses.
    pub fn rank(&self) -> (r: u8)
        ensures
            r == self.spec_rank(),
    {
        match self {
            AccountType::Asset => 1,
            AccountType::Liability => 2,
            AccountType::Equity => 3,
            AccountType::Revenue => 4,
            AccountType::Expense => 5,
        }
    }
}

/// An account of the chart of accounts.
#[derive(Debug)]
pub struct Account {
    pub id: i64,
    /// The key by which people name the account, such as "1110"; no two
    /// accounts of one set of books share it.
    pub code: String,
    pub name: String,
    pub account_type: AccountType,
    /// The account above this one, if it has one.
    pub parent_id: Option<i64>,
    /// The running total of debits minus credits.
    pub balance: Money,
    /// Seconds since the Unix epoch.
    pub created_at: i64,
    /// Seconds since the Unix epoch.
    pub updated_at: i64,
}

impl Clone for Account {
    fn clone(&self) -> (r: Account)
        ensures
            r == *self,
    {
        Account {
            id: self.id,
            code: self.code.clone(),
            name: self.name.clone(),
            account_type: self.account_type,
            parent_id: self.parent_id,
            balance: self.balance,
            created_at: self.created_at,
            updated_at: self.updated_at,
        }
    }
}

/// What is asked for when an account is opened.
#[derive(Debug)]
pub struct CreateAccountRequest {
    pub code: String,
    pub name: String,
    pub account_type: AccountType,
    pub parent_id: Option<i64>,
}

/// What may be changed on an account; a field left out stays as it is.
#[derive(Debug)]
pub struct UpdateAccountRequest {
    pub name: Option<String>,
    pub parent_id: Option<i64>,
}

/// An account's balance beside the debits and credits that make it up.
#[derive(Debug)]
pub struct AccountBalance {
    pub account_id: i64,
    pub account_code: String,
    pub account_name: String,
    pub account_type: AccountType,
    pub balance: Money,
    pub debit_total: Money,
    pub credit_total: Money,
}

impl Account {
    /// The balance in the account's own polarity: the balance itself for a
    /// debit-normal account, its negation for a credit-normal one.
    pub open spec fn spec_normal_balance(self) -> Money {
        if self.account_type.debit_normal() {
            self.balance
        } else {
            self.balance.negated()
        }
    }

    /// Whether the balance has the sign that the account's type calls for:
    /// not negative on a debit-normal account, not positive on a credit-normal
    /// one.
    pub open spec fn spec_has_normal_balance(self) -> bool {
        if self.account_type.debit_normal() {
            self.balance@ >= 0
        } else {
            self.balance@ <= 0
        }
    }

    /// Calculate the normal balance for this account type.
    pub fn normal_balance(&self) -> (r: Money)
        ensures
            r == self.spec_normal_balance(),
            r@ == (if self.account_type.debit_normal() {
                self.balance@
            } else {
                -self.balance@
            }),
    {
        if self.account_type.is_debit_normal() {
            self.balance
        } else {
            self.balance.neg()
        }
    }

    /// Check if the account has a normal balance (not negative for debit
    /// accounts, not positive for credit accounts).
    pub fn has_normal_balance(&self) -> (r: bool)
        ensures
            r == self.spec_has_normal_balance(),
    {
        if self.account_type.is_debit_normal() {
            !self.balance.is_negative()
        } else {
            !self.balance.is_positive()
        }
    }
}

/// The absolute normal balances of a set of accounts, added up by account
/// type, with the net income that follows from them.
#[derive(Clone, Copy, Debug)]
pub struct AccountSummary {
    pub total_assets: Money,
    pub total_liabilities: Money,
    pub total_equity: Money,
    pub total_revenue: Money,
    pub total_expenses: Money,
    /// Revenue less expenses.
    pub net_income: Money,
}

impl AccountSummary {
    /// The total of the given account type.
    pub open spec fn total_of(self, account_type: AccountType) -> Money {
        match account_type {
            AccountType::Asset => self.total_assets,
            AccountType::Liability => self.total_liabilities,
            AccountType::Equity => self.total_equity,
            AccountType::Revenue => self.total_revenue,
            AccountType::Expense => self.total_expenses,
        }
    }

    /// The summary with the total of one account type replaced.
    pub open spec fn with_total(self, account_type: AccountType, total: Money) -> AccountSummary {
        match account_type {
            AccountType::Asset => AccountSummary { total_assets: total, ..self },
            AccountType::Liability => AccountSummary { total_liabilities: total, ..self },
            AccountType::Equity => AccountSummary { total_equity: total, ..self },
            AccountType::Revenue => AccountSummary { total_revenue: total, ..self },
            AccountType::Expense => AccountSummary { total_expenses: total, ..self },
        }
    }

    /// The summary after one more account: the magnitude of its normal
    /// balance is added to the total of its type, and net income is revenue
    /// less expenses. Nothing where one of the two calculations is refused.
    pub open spec fn with_account(self, account: Account) -> Option<AccountSummary> {
        let amount = account.spec_normal_balance().magnitude();
        match self.total_of(account.account_type).sum(amount) {
            Some(total) => {
                let next = self.with_total(account.account_type, total);
                match next.total_revenue.difference(next.total_expenses) {
                    Some(net) => Some(AccountSummary { net_income: net, ..next }),
                    None => None,
                }
            },
            None => None,
        }
    }

    /// Whether assets equal liabilities plus equity plus net income. Nothing
    /// where the right-hand side cannot be added up.
    pub open spec fn balance_check(self) -> Option<bool> {
        match self.total_liabilities.sum(self.total_equity) {
            Some(claims) => match claims.sum(self.net_income) {
                Some(right) => Some(self.total_assets@ == right@),
                None => None,
            },
            None => None,
        }
    }

    /// The summary of no accounts: every total is zero.
    pub fn new() -> (r: AccountSummary)
        ensures
            r.total_assets == Money::of(0, 0),
            r.total_liabilities == Money::of(0, 0),
            r.total_equity == Money::of(0, 0),
            r.total_revenue == Money::of(0, 0),
            r.total_expenses == Money::of(0, 0),
            r.net_income == Money::of(0, 0),
    {
        AccountSummary {
            total_assets: Money::zero(),
            total_liabilities: Money::zero(),
            total_equity: Money::zero(),
            total_revenue: Money::zero(),
            total_expenses: Money::zero(),
            net_income: Money::zero(),
        }
    }

    /// Adds an account to the summary. Where a total cannot be formed the
    /// summary is left as it was.
    pub fn add_account(&mut self, account: &Account) -> (r: Result<(), OutOfRange>)
        ensures
            match old(self).with_account(*account) {
                Some(next) => r is Ok && *final(self) == next,
                None => r is Err && *final(self) == *old(self),
            },
    {
        let amount = account.normal_balance().abs();
        let current = match account.account_type {
            AccountType::Asset => self.total_assets,
            AccountType::Liability => self.total_liabilities,
            AccountType::Equity => self.total_equity,
            AccountType::Revenue => self.total_revenue,
            AccountType::Expense => self.total_expenses,
        };
        let total = match current.checked_add(amount) {
            Some(total) => total,
            None => {
                return Err(OutOfRange {});
            },
        };
        let mut next = *self;
        match account.account_type {
            AccountType::Asset => {
                next.total_assets = total;
            },
            AccountType::Liability => {
                next.total_liabilities = total;
            },
            AccountType::Equity => {
                next.total_equity = total;
            },
            AccountType::Revenue => {
                next.total_revenue = total;
            },
            AccountType::Expense => {
                next.total_expenses = total;
            },
        }
        match next.total_revenue.checked_sub(next.total_expenses) {
            Some(net) => {
                next.net_income = net;
                *self = next;
                Ok(())
            },
            None => Err(OutOfRange {}),
        }
    }

    /// Check if the accounting equation balances: Assets = Liabilities +
    /// Equity + Net Income.
    pub fn is_balanced(&self) -> (r: Result<bool, OutOfRange>)
        ensures
            match self.balance_check() {
                Some(b) => r == Ok::<bool, OutOfRange>(b),
                None => r is Err,
            },
    {
        let claims = match self.total_liabilities.checked_add(self.total_equity) {
            Some(claims) => claims,
            None => {
                return Err(OutOfRange {});
            },
        };
        match claims.checked_add(self.net_income) {
            Some(right) => Ok(self.total_assets == right),
            None => Err(OutOfRange {}),
        }
    }
}

} // verus!
