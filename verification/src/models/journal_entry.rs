//! Journal entries, the trial balance and the statement of one account.

use crate::date::Date;
use crate::models::account::AccountType;
use crate::models::transaction::{amounts_check, check_amounts, clone_optional_text, EntryError};
use crate::money::{Money, OutOfRange};
use crate::sort::{sort, sorted, Ranking};
use crate::text::{
    lemma_text_at_most_transitive, lemma_text_before_total, str_less, text_at_most,
};
use vstd::prelude::*;

verus! {

/// One leg of a posted transaction: a debit or a credit on one account. The
/// side that is not used holds zero.
#[derive(Debug)]
pub struct JournalEntry {
    pub id: i64,
    pub transaction_id: i64,
    pub account_id: i64,
    pub debit_amount: Money,
    pub credit_amount: Money,
    pub description: Option<String>,
    /// Seconds since the Unix epoch.
    pub created_at: i64,
}

impl Clone for JournalEntry {
    fn clone(&self) -> (r: JournalEntry)
        ensures
            r == *self,
    {
        JournalEntry {
            id: self.id,
            transaction_id: self.transaction_id,
            account_id: self.account_id,
            debit_amount: self.debit_amount,
            credit_amount: self.credit_amount,
            description: clone_optional_text(&self.description),
            created_at: self.created_at,
        }
    }
}

impl JournalEntry {
    /// Whether the two amounts of the entry are well formed.
    pub open spec fn wf(self) -> bool {
        self.debit_amount.wf() && self.credit_amount.wf()
    }

    /// Get the net effect of this journal entry (positive for debits,
    /// negative for credits).
    pub fn net_amount(&self) -> (r: Option<Money>)
        ensures
            r == self.debit_amount.difference(self.credit_amount),
            r matches Some(net) ==> net@ == self.debit_amount@ - self.credit_amount@,
    {
        self.debit_amount.checked_sub(self.credit_amount)
    }

    /// Check if this is a debit entry.
    pub fn is_debit(&self) -> (r: bool)
        ensures
            r == (self.debit_amount@ > 0),
    {
        self.debit_amount.is_positive()
    }

    /// Check if this is a credit entry.
    pub fn is_credit(&self) -> (r: bool)
        ensures
            r == (self.credit_amount@ > 0),
    {
        self.credit_amount.is_positive()
    }

    /// Get the amount of this entry: the debit amount of a debit entry, the
    /// credit amount of any other.
    pub fn amount(&self) -> (r: Money)
        ensures
            r == (if self.debit_amount@ > 0 {
                self.debit_amount
            } else {
                self.credit_amount
            }),
    {
        if self.is_debit() {
            self.debit_amount
        } else {
            self.credit_amount
        }
    }
}

/// A journal entry asked for on its own, for a transaction that exists.
#[derive(Debug)]
pub struct CreateJournalEntryRequest {
    pub transaction_id: i64,
    pub account_id: i64,
    pub debit_amount: Option<Money>,
    pub credit_amount: Option<Money>,
    pub description: Option<String>,
}

impl CreateJournalEntryRequest {
    /// Validate the journal entry request: exactly one of debit and credit
    /// is given, and it is greater than zero.
    pub fn validate(&self) -> (r: Result<(), EntryError>)
        ensures
            r == amounts_check(self.debit_amount, self.credit_amount),
    {
        check_amounts(&self.debit_amount, &self.credit_amount)
    }

    /// Convert to a journal entry created at the time `now`, without an id:
    /// the id is 0 until the books assign one. A side that is not given
    /// holds zero.
    pub fn to_journal_entry(&self, now: i64) -> (r: JournalEntry)
        ensures
            r.id == 0,
            r.transaction_id == self.transaction_id,
            r.account_id == self.account_id,
            r.debit_amount == (match self.debit_amount {
                Some(d) => d,
                None => Money::of(0, 0),
            }),
            r.credit_amount == (match self.credit_amount {
                Some(c) => c,
                None => Money::of(0, 0),
            }),
            r.description == self.description,
            r.created_at == now,
    {
        JournalEntry {
            id: 0,
            transaction_id: self.transaction_id,
            account_id: self.account_id,
            debit_amount: match self.debit_amount {
                Some(d) => d,
                None => Money::zero(),
            },
            credit_amount: match self.credit_amount {
                Some(c) => c,
                None => Money::zero(),
            },
            description: clone_optional_text(&self.description),
            created_at: now,
        }
    }
}

/// What may be changed on a journal entry; a field left out stays as it is.
#[derive(Debug)]
pub struct UpdateJournalEntryRequest {
    pub account_id: Option<i64>,
    pub debit_amount: Option<Money>,
    pub credit_amount: Option<Money>,
    pub description: Option<String>,
}

/// A journal entry together with its transaction and its account.
#[derive(Debug)]
pub struct JournalEntryWithDetails {
    pub id: i64,
    pub transaction_id: i64,
    pub transaction_description: String,
    pub transaction_date: Date,
    pub account_id: i64,
    pub account_code: String,
    pub account_name: String,
    pub debit_amount: Money,
    pub credit_amount: Money,
    pub description: Option<String>,
    /// Seconds since the Unix epoch.
    pub created_at: i64,
}

/// The line of one account in the trial balance: its net position, in the
/// debit column or in the credit column.
#[derive(Debug)]
pub struct TrialBalanceEntry {
    pub account_id: i64,
    pub account_code: String,
    pub account_name: String,
    pub account_type: AccountType,
    pub debit_balance: Money,
    pub credit_balance: Money,
}

/// The order of trial balance lines by account code.
pub struct ByCode {}

impl Ranking<TrialBalanceEntry> for ByCode {
    open spec fn at_most(a: TrialBalanceEntry, b: TrialBalanceEntry) -> bool {
        text_at_most(a.account_code@, b.account_code@)
    }

    proof fn total(a: TrialBalanceEntry, b: TrialBalanceEntry) {
        lemma_text_before_total(a.account_code@, b.account_code@);
    }

    proof fn transitive(a: TrialBalanceEntry, b: TrialBalanceEntry, c: TrialBalanceEntry) {
        lemma_text_at_most_transitive(a.account_code@, b.account_code@, c.account_code@);
    }

    fn precedes(a: &TrialBalanceEntry, b: &TrialBalanceEntry) -> (r: bool) {
        !str_less(b.account_code.as_str(), a.account_code.as_str())
    }
}

/// The order of trial balance lines by account type (assets, liabilities,
/// equity, revenue, expenses) and, within a type, by account code.
pub struct ByTypeAndCode {}

impl Ranking<TrialBalanceEntry> for ByTypeAndCode {
    open spec fn at_most(a: TrialBalanceEntry, b: TrialBalanceEntry) -> bool {
        a.account_type.spec_rank() < b.account_type.spec_rank() || (a.account_type.spec_rank()
            == b.account_type.spec_rank() && text_at_most(a.account_code@, b.account_code@))
    }

    proof fn total(a: TrialBalanceEntry, b: TrialBalanceEntry) {
        lemma_text_before_total(a.account_code@, b.account_code@);
    }

    proof fn transitive(a: TrialBalanceEntry, b: TrialBalanceEntry, c: TrialBalanceEntry) {
        if a.account_type.spec_rank() == b.account_type.spec_rank() && b.account_type.spec_rank()
            == c.account_type.spec_rank() {
            lemma_text_at_most_transitive(a.account_code@, b.account_code@, c.account_code@);
        }
    }

    fn precedes(a: &TrialBalanceEntry, b: &TrialBalanceEntry) -> (r: bool) {
        let rank_a: u8 = a.account_type.rank();
        let rank_b: u8 = b.account_type.rank();
        if rank_a != rank_b {
            rank_a < rank_b
        } else {
            !str_less(b.account_code.as_str(), a.account_code.as_str())
        }
    }
}

/// The trial balance: one line for each account, and the totals of the two
/// columns.
#[derive(Debug)]
pub struct TrialBalance {
    pub entries: Vec<TrialBalanceEntry>,
    /// The sum of the debit column.
    pub total_debits: Money,
    /// The sum of the credit column.
    pub total_credits: Money,
    /// Whether the two totals are the same number.
    pub is_balanced: bool,
}

impl TrialBalance {
    /// The trial balance of no accounts: both totals are zero, and equal.
    pub fn new() -> (r: TrialBalance)
        ensures
            r.entries@.len() == 0,
            r.total_debits == Money::of(0, 0),
            r.total_credits == Money::of(0, 0),
            r.is_balanced,
    {
        TrialBalance {
            entries: Vec::new(),
            total_debits: Money::zero(),
            total_credits: Money::zero(),
            is_balanced: true,
        }
    }

    /// Adds a line: its two columns are added to the totals, and the
    /// balance is judged anew. Where a total cannot be formed the trial
    /// balance is left as it was.
    pub fn add_entry(&mut self, entry: TrialBalanceEntry) -> (r: Result<(), OutOfRange>)
        ensures
            match (
                old(self).total_debits.sum(entry.debit_balance),
                old(self).total_credits.sum(entry.credit_balance),
            ) {
                (Some(debits), Some(credits)) => {
                    &&& r is Ok
                    &&& final(self).entries@ == old(self).entries@.push(entry)
                    &&& final(self).total_debits == debits
                    &&& final(self).total_credits == credits
                    &&& final(self).is_balanced == (debits@ == credits@)
                },
                _ => r is Err && *final(self) == *old(self),
            },
    {
        let debits = match self.total_debits.checked_add(entry.debit_balance) {
            Some(debits) => debits,
            None => {
                return Err(OutOfRange {});
            },
        };
        let credits = match self.total_credits.checked_add(entry.credit_balance) {
            Some(credits) => credits,
            None => {
                return Err(OutOfRange {});
            },
        };
        self.total_debits = debits;
        self.total_credits = credits;
        self.entries.push(entry);
        self.is_balanced = debits == credits;
        Ok(())
    }

    /// Sort entries by account code.
    pub fn sort_by_code(&mut self)
        ensures
            final(self).entries@ == sorted::<TrialBalanceEntry, ByCode>(old(self).entries@),
            final(self).total_debits == old(self).total_debits,
            final(self).total_credits == old(self).total_credits,
            final(self).is_balanced == old(self).is_balanced,
    {
        sort::<TrialBalanceEntry, ByCode>(&mut self.entries);
    }

    /// Sort entries by account type and then by code.
    pub fn sort_by_type_and_code(&mut self)
        ensures
            final(self).entries@ == sorted::<TrialBalanceEntry, ByTypeAndCode>(old(self).entries@),
            final(self).total_debits == old(self).total_debits,
            final(self).total_credits == old(self).total_credits,
            final(self).is_balanced == old(self).is_balanced,
    {
        sort::<TrialBalanceEntry, ByTypeAndCode>(&mut self.entries);
    }
}

/// The order of detailed journal entries by the date of their transaction.
pub struct ByDate {}

impl Ranking<JournalEntryWithDetails> for ByDate {
    open spec fn at_most(a: JournalEntryWithDetails, b: JournalEntryWithDetails) -> bool {
        !b.transaction_date.earlier_than(a.transaction_date)
    }

    proof fn total(a: JournalEntryWithDetails, b: JournalEntryWithDetails) {
    }

    proof fn transitive(
        a: JournalEntryWithDetails,
        b: JournalEntryWithDetails,
        c: JournalEntryWithDetails,
    ) {
    }

    fn precedes(a: &JournalEntryWithDetails, b: &JournalEntryWithDetails) -> (r: bool) {
        !b.transaction_date.is_before(&a.transaction_date)
    }
}

/// The entries of one account over a period, from its opening balance to
/// its closing balance.
#[derive(Debug)]
pub struct AccountStatement {
    pub account_id: i64,
    pub account_code: String,
    pub account_name: String,
    pub account_type: AccountType,
    pub opening_balance: Money,
    /// The opening balance plus the debits less the credits of the entries.
    pub closing_balance: Money,
    pub entries: Vec<JournalEntryWithDetails>,
    pub total_debits: Money,
    pub total_credits: Money,
}

/// The three amounts of a statement after one more entry: the totals of
/// debits and of credits, and the closing balance. Nothing where one of the
/// calculations is refused.
pub open spec fn statement_step(
    total_debits: Money,
    total_credits: Money,
    closing_balance: Money,
    debit: Money,
    credit: Money,
) -> Option<(Money, Money, Money)> {
    match (total_debits.sum(debit), total_credits.sum(credit), debit.difference(credit)) {
        (Some(debits), Some(credits), Some(net)) => match closing_balance.sum(net) {
            Some(closing) => Some((debits, credits, closing)),
            None => None,
        },
        _ => None,
    }
}

impl AccountStatement {
    /// The statement of an account with no entries yet: it closes at its
    /// opening balance.
    pub fn new(
        account_id: i64,
        account_code: String,
        account_name: String,
        account_type: AccountType,
        opening_balance: Money,
    ) -> (r: AccountStatement)
        ensures
            r.account_id == account_id,
            r.account_code == account_code,
            r.account_name == account_name,
            r.account_type == account_type,
            r.opening_balance == opening_balance,
            r.closing_balance == opening_balance,
            r.entries@.len() == 0,
            r.total_debits == Money::of(0, 0),
            r.total_credits == Money::of(0, 0),
    {
        AccountStatement {
            account_id,
            account_code,
            account_name,
            account_type,
            opening_balance,
            closing_balance: opening_balance,
            entries: Vec::new(),
            total_debits: Money::zero(),
            total_credits: Money::zero(),
        }
    }

    /// Adds an entry: its amounts are added to the totals, and its debit
    /// less its credit to the closing balance. Where an amount cannot be
    /// formed the statement is left as it was.
    pub fn add_entry(&mut self, entry: JournalEntryWithDetails) -> (r: Result<(), OutOfRange>)
        ensures
            match statement_step(
                old(self).total_debits,
                old(self).total_credits,
                old(self).closing_balance,
                entry.debit_amount,
                entry.credit_amount,
            ) {
                Some((debits, credits, closing)) => {
                    &&& r is Ok
                    &&& final(self).entries@ == old(self).entries@.push(entry)
                    &&& final(self).total_debits == debits
                    &&& final(self).total_credits == credits
                    &&& final(self).closing_balance == closing
                    &&& final(self).opening_balance == old(self).opening_balance
                    &&& final(self).account_id == old(self).account_id
                    &&& final(self).account_code == old(self).account_code
                    &&& final(self).account_name == old(self).account_name
                    &&& final(self).account_type == old(self).account_type
                },
                None => r is Err && *final(self) == *old(self),
            },
            r is Ok ==> final(self).closing_balance@ == old(self).closing_balance@
                + entry.debit_amount@ - entry.credit_amount@,
    {
        let debits = match self.total_debits.checked_add(entry.debit_amount) {
            Some(debits) => debits,
            None => {
                return Err(OutOfRange {});
            },
        };
        let credits = match self.total_credits.checked_add(entry.credit_amount) {
            Some(credits) => credits,
            None => {
                return Err(OutOfRange {});
            },
        };
        let net = match entry.debit_amount.checked_sub(entry.credit_amount) {
            Some(net) => net,
            None => {
                return Err(OutOfRange {});
            },
        };
        let closing = match self.closing_balance.checked_add(net) {
            Some(closing) => closing,
            None => {
                return Err(OutOfRange {});
            },
        };
        self.total_debits = debits;
        self.total_credits = credits;
        self.closing_balance = closing;
        self.entries.push(entry);
        Ok(())
    }

    /// Sort entries by transaction date.
    pub fn sort_by_date(&mut self)
        ensures
            final(self).entries@ == sorted::<JournalEntryWithDetails, ByDate>(old(self).entries@),
            final(self).account_id == old(self).account_id,
            final(self).account_code == old(self).account_code,
            final(self).account_name == old(self).account_name,
            final(self).account_type == old(self).account_type,
            final(self).opening_balance == old(self).opening_balance,
            final(self).closing_balance == old(self).closing_balance,
            final(self).total_debits == old(self).total_debits,
            final(self).total_credits == old(self).total_credits,
    {
        sort::<JournalEntryWithDetails, ByDate>(&mut self.entries);
    }
}

} // verus!
