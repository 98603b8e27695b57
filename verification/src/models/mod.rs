//! The records of the books: accounts, transactions and journal entries.

pub mod account;
pub mod journal_entry;
pub mod transaction;

pub use account::{
    Account, AccountBalance, AccountSummary, AccountType, CreateAccountRequest,
    UpdateAccountRequest,
};
pub use journal_entry::{
    AccountStatement, JournalEntry, JournalEntryWithDetails, TrialBalance, TrialBalanceEntry,
    UpdateJournalEntryRequest,
};
pub use transaction::{
    CreateJournalEntryRequest, CreateTransactionRequest, EntryError, JournalEntryWithAccount,
    Transaction, TransactionFilter, TransactionSummary, TransactionWithEntries,
    UpdateTransactionRequest, ValidationError,
};
