//! Double-entry bookkeeping: accounts, transactions made of balanced journal
//! entries, and the reports derived from them.
//!
//! The books keep one promise above all: the debits of every transaction
//! add up to exactly its credits, and so do the two columns of the trial
//! balance. Amounts are exact decimals; nothing is ever rounded.

pub mod database;
pub mod date;
pub mod handlers;
pub mod laws;
pub mod models;
pub mod money;
pub mod sort;
pub mod text;

pub use database::{Database, LedgerError};
pub use date::Date;
pub use models::{
    Account, AccountBalance, AccountStatement, AccountSummary, AccountType,
    CreateAccountRequest, CreateJournalEntryRequest, CreateTransactionRequest, EntryError,
    JournalEntry, JournalEntryWithAccount, JournalEntryWithDetails, Transaction,
    TransactionFilter, TransactionSummary, TransactionWithEntries, TrialBalance,
    TrialBalanceEntry, UpdateAccountRequest, UpdateJournalEntryRequest,
    UpdateTransactionRequest, ValidationError,
};
pub use money::{Money, OutOfRange};
