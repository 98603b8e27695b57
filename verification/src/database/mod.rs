//! The books: accounts, transactions and journal entries, with the
//! operations that read and change them.
//!
//! Every operation that changes the books either completes or leaves them
//! exactly as they were. The books hold no totals: every report is computed
//! from the accounts and entries when it is asked for.

pub mod listing;
pub mod reports;
pub mod sums;

use crate::database::listing::{
    check_filter, lemma_listed_members, listed, passing, NewestFirst,
};
use crate::database::reports::{
    all_resolved, balance_line, balance_lines, is_trial_balance, lemma_lines_none_extends,
    lemma_lines_totals_none_extend, lemma_summary_none_extends, lemma_trial_balance_closes,
    line_column, summary_of, trial_balance_fits,
};
use crate::database::sums::{
    lemma_selected_append, lemma_selected_every, lemma_selected_none, lemma_sum_units_append,
    lemma_sum_units_every, lemma_sum_units_none, side_column,
};
use crate::models::account::{
    Account, AccountSummary, CreateAccountRequest, UpdateAccountRequest,
};
use crate::models::journal_entry::{JournalEntry, TrialBalance, TrialBalanceEntry};
use crate::models::transaction::{
    all_entries_valid, clone_optional_text, credit_column, debit_column, judged,
    lemma_judged_once, CreateJournalEntryRequest, CreateTransactionRequest,
    JournalEntryWithAccount, Transaction, TransactionFilter, TransactionWithEntries,
    ValidationError,
};
use crate::money::{checked_total, total, total_units, Money};
use crate::sort::{sort, sorted, Ranking};
use crate::text::{
    integer_text, integer_to_string, lemma_text_at_most_transitive, lemma_text_before_total,
    str_less, text_at_most,
};
use vstd::prelude::*;
use vstd::string::StringExecFns;

verus! {

/// Why the books refuse an operation.
#[derive(Clone, Copy, Debug, PartialEq)]
pub enum LedgerError {
    /// The transaction request does not pass validation.
    Validation(ValidationError),
    /// A journal entry names an account that the books do not hold.
    UnknownAccount { account_id: i64 },
    /// Another account already has the code.
    DuplicateCode,
    /// The parent named for an account is not in the books.
    InvalidParent,
    /// An account was named as its own parent.
    SelfParent,
    /// A total could not be formed exactly.
    AmountOutOfRange,
    /// The books have run out of identifiers.
    IdsExhausted,
    /// A record handed to the books does not fit what they hold already.
    InconsistentRecord,
}

impl LedgerError {
    /// The reason in words.
    pub open spec fn spec_message(self) -> Seq<char> {
        match self {
            LedgerError::Validation(e) => e.spec_message(),
            LedgerError::UnknownAccount { account_id } => "Account with ID "@ + integer_text(
                account_id as int,
            ) + " does not exist"@,
            LedgerError::DuplicateCode => "Account code already exists"@,
            LedgerError::InvalidParent => "Parent account does not exist"@,
            LedgerError::SelfParent => "Account cannot be its own parent"@,
            LedgerError::AmountOutOfRange => "Amounts cannot be added up exactly"@,
            LedgerError::IdsExhausted => "No identifiers are left"@,
            LedgerError::InconsistentRecord => "Record does not fit the books"@,
        }
    }

    /// The reason in words.
    pub fn message(&self) -> (r: String)
        ensures
            r@ == self.spec_message(),
    {
        match self {
            LedgerError::Validation(e) => e.message(),
            LedgerError::UnknownAccount { account_id } => {
                let mut text = String::from_str("Account with ID ");
                text.append(integer_to_string(*account_id as i128).as_str());
                text.append(" does not exist");
                text
            },
            LedgerError::DuplicateCode => String::from_str("Account code already exists"),
            LedgerError::InvalidParent => String::from_str("Parent account does not exist"),
            LedgerError::SelfParent => String::from_str("Account cannot be its own parent"),
            LedgerError::AmountOutOfRange => String::from_str(
                "Amounts cannot be added up exactly",
            ),
            LedgerError::IdsExhausted => String::from_str("No identifiers are left"),
            LedgerError::InconsistentRecord => String::from_str("Record does not fit the books"),
        }
    }
}

/// Which side of a journal entry an amount is taken from.
#[derive(Clone, Copy, Debug, PartialEq, Eq, Structural)]
pub enum Side {
    Debit,
    Credit,
}

/// Which journal entries a sum runs over.
#[derive(Clone, Copy, Debug, PartialEq, Eq, Structural)]
pub enum Selector {
    /// Every entry.
    All,
    /// The entries of one transaction.
    OfTransaction(i64),
    /// The entries on one account.
    OnAccount(i64),
}

impl Selector {
    /// Whether the sum runs over the entry.
    pub open spec fn selects(self, entry: JournalEntry) -> bool {
        match self {
            Selector::All => true,
            Selector::OfTransaction(id) => entry.transaction_id == id,
            Selector::OnAccount(id) => entry.account_id == id,
        }
    }

    /// Decides whether the sum runs over the entry.
    pub fn includes(&self, entry: &JournalEntry) -> (r: bool)
        ensures
            r == self.selects(*entry),
    {
        match self {
            Selector::All => true,
            Selector::OfTransaction(id) => entry.transaction_id == *id,
            Selector::OnAccount(id) => entry.account_id == *id,
        }
    }
}

impl Side {
    /// The amount that the entry holds on this side.
    pub open spec fn amount_of(self, entry: JournalEntry) -> Money {
        match self {
            Side::Debit => entry.debit_amount,
            Side::Credit => entry.credit_amount,
        }
    }
}

/// The exact sum, in units of `10^-28`, of one side of the selected entries.
pub open spec fn sum_units(entries: Seq<JournalEntry>, selector: Selector, side: Side) -> int
    decreases entries.len(),
{
    if entries.len() == 0 {
        0
    } else {
        sum_units(entries.drop_last(), selector, side) + (if selector.selects(entries.last()) {
            side.amount_of(entries.last())@
        } else {
            0
        })
    }
}

/// The amounts on one side of the selected entries, in the order of the
/// entries.
pub open spec fn selected_amounts(
    entries: Seq<JournalEntry>,
    selector: Selector,
    side: Side,
) -> Seq<Money>
    decreases entries.len(),
{
    if entries.len() == 0 {
        Seq::empty()
    } else if selector.selects(entries.last()) {
        selected_amounts(entries.drop_last(), selector, side).push(side.amount_of(entries.last()))
    } else {
        selected_amounts(entries.drop_last(), selector, side)
    }
}

/// The account with the given id, if the sequence holds one.
pub open spec fn find_account(accounts: Seq<Account>, id: i64) -> Option<Account>
    decreases accounts.len(),
{
    if accounts.len() == 0 {
        None
    } else if accounts.last().id == id {
        Some(accounts.last())
    } else {
        find_account(accounts.drop_last(), id)
    }
}

/// The account with the given code, if the sequence holds one.
pub open spec fn find_account_by_code(accounts: Seq<Account>, code: Seq<char>) -> Option<Account>
    decreases accounts.len(),
{
    if accounts.len() == 0 {
        None
    } else if accounts.last().code@ == code {
        Some(accounts.last())
    } else {
        find_account_by_code(accounts.drop_last(), code)
    }
}

/// The transaction with the given id, if the sequence holds one.
pub open spec fn find_transaction(transactions: Seq<Transaction>, id: i64) -> Option<Transaction>
    decreases transactions.len(),
{
    if transactions.len() == 0 {
        None
    } else if transactions.last().id == id {
        Some(transactions.last())
    } else {
        find_transaction(transactions.drop_last(), id)
    }
}

/// Whether the accounts are as the books keep them: ids ascending, from 1
/// and below `next_id`; no code twice; no account its own parent; balances
/// well formed.
pub open spec fn accounts_wf(accounts: Seq<Account>, next_id: i64) -> bool {
    &&& forall|i: int, j: int|
        0 <= i < j < accounts.len() ==> (#[trigger] accounts[i]).id < (#[trigger] accounts[j]).id
    &&& forall|i: int| 0 <= i < accounts.len() ==> 1 <= (#[trigger] accounts[i]).id < next_id
    &&& forall|i: int, j: int|
        0 <= i < j < accounts.len() ==> (#[trigger] accounts[i]).code@ != (
        #[trigger] accounts[j]).code@
    &&& forall|i: int|
        0 <= i < accounts.len() ==> (#[trigger] accounts[i]).parent_id != Some(accounts[i].id)
    &&& forall|i: int| 0 <= i < accounts.len() ==> (#[trigger] accounts[i]).balance.wf()
}

/// Whether the transactions are as the books keep them: ids ascending, from
/// 1 and below `next_id`.
pub open spec fn transactions_wf(transactions: Seq<Transaction>, next_id: i64) -> bool {
    &&& forall|i: int, j: int|
        0 <= i < j < transactions.len() ==> (#[trigger] transactions[i]).id < (
        #[trigger] transactions[j]).id
    &&& forall|i: int|
        0 <= i < transactions.len() ==> 1 <= (#[trigger] transactions[i]).id < next_id
}

/// Whether a journal entry is one-sided: one of its amounts is greater than
/// zero and the other is zero.
pub open spec fn one_sided(entry: JournalEntry) -> bool {
    ||| entry.debit_amount@ > 0 && entry.credit_amount@ == 0
    ||| entry.debit_amount@ == 0 && entry.credit_amount@ > 0
}

/// Whether the journal entries are as the books keep them: ids ascending,
/// from 1 and below `next_id`; each one-sided, with well-formed amounts, and
/// belonging to a transaction of the books.
pub open spec fn entries_wf(
    entries: Seq<JournalEntry>,
    next_id: i64,
    transactions: Seq<Transaction>,
) -> bool {
    &&& forall|i: int, j: int|
        0 <= i < j < entries.len() ==> (#[trigger] entries[i]).id < (#[trigger] entries[j]).id
    &&& forall|i: int| 0 <= i < entries.len() ==> 1 <= (#[trigger] entries[i]).id < next_id
    &&& forall|i: int| 0 <= i < entries.len() ==> (#[trigger] entries[i]).wf()
    &&& forall|i: int| 0 <= i < entries.len() ==> one_sided(#[trigger] entries[i])
    &&& forall|i: int|
        0 <= i < entries.len() ==> find_transaction(
            transactions,
            (#[trigger] entries[i]).transaction_id,
        ) is Some
}

/// Whether every transaction balances: the debits of its entries add up to
/// exactly what its credits add up to.
pub open spec fn all_balanced(entries: Seq<JournalEntry>, transactions: Seq<Transaction>) -> bool {
    forall|i: int|
        0 <= i < transactions.len() ==> sum_units(
            entries,
            Selector::OfTransaction((#[trigger] transactions[i]).id),
            Side::Debit,
        ) == sum_units(entries, Selector::OfTransaction(transactions[i].id), Side::Credit)
}

/// Whether the totals of every transaction can be formed from all of its
/// entries: its debits can be added up, and so can its credits.
pub open spec fn all_whole(entries: Seq<JournalEntry>, transactions: Seq<Transaction>) -> bool {
    forall|i: int|
        0 <= i < transactions.len() ==> {
            let own = Selector::OfTransaction((#[trigger] transactions[i]).id);
            &&& checked_total(selected_amounts(entries, own, Side::Debit)) is Some
            &&& checked_total(selected_amounts(entries, own, Side::Credit)) is Some
        }
}

/// What looking an account up by id finds: an account of the sequence with
/// that id, or nothing where no account has it.
pub proof fn lemma_find_account(accounts: Seq<Account>, id: i64)
    ensures
        match find_account(accounts, id) {
            Some(a) => a.id == id && exists|i: int|
                0 <= i < accounts.len() && #[trigger] accounts[i] == a,
            None => forall|i: int| 0 <= i < accounts.len() ==> (#[trigger] accounts[i]).id != id,
        },
    decreases accounts.len(),
{
    if accounts.len() > 0 {
        let front = accounts.drop_last();
        lemma_find_account(front, id);
        if accounts.last().id == id {
            assert(accounts[accounts.len() - 1] == accounts.last());
        } else {
            match find_account(front, id) {
                Some(a) => {
                    let i = choose|i: int| 0 <= i < front.len() && #[trigger] front[i] == a;
                    assert(accounts[i] == a);
                },
                None => {
                    assert forall|i: int| 0 <= i < accounts.len() implies (
                    #[trigger] accounts[i]).id != id by {
                        if i < front.len() {
                            assert(front[i] == accounts[i]);
                        }
                    }
                },
            }
        }
    }
}

/// What looking an account up by code finds: an account of the sequence
/// with that code, or nothing where no account has it.
pub proof fn lemma_find_account_by_code(accounts: Seq<Account>, code: Seq<char>)
    ensures
        match find_account_by_code(accounts, code) {
            Some(a) => a.code@ == code && exists|i: int|
                0 <= i < accounts.len() && #[trigger] accounts[i] == a,
            None => forall|i: int|
                0 <= i < accounts.len() ==> (#[trigger] accounts[i]).code@ != code,
        },
    decreases accounts.len(),
{
    if accounts.len() > 0 {
        let front = accounts.drop_last();
        lemma_find_account_by_code(front, code);
        if accounts.last().code@ == code {
            assert(accounts[accounts.len() - 1] == accounts.last());
        } else {
            match find_account_by_code(front, code) {
                Some(a) => {
                    let i = choose|i: int| 0 <= i < front.len() && #[trigger] front[i] == a;
                    assert(accounts[i] == a);
                },
                None => {
                    assert forall|i: int| 0 <= i < accounts.len() implies (
                    #[trigger] accounts[i]).code@ != code by {
                        if i < front.len() {
                            assert(front[i] == accounts[i]);
                        }
                    }
                },
            }
        }
    }
}

/// What looking a transaction up by id finds: a transaction of the sequence
/// with that id, or nothing where no transaction has it.
pub proof fn lemma_find_transaction(transactions: Seq<Transaction>, id: i64)
    ensures
        match find_transaction(transactions, id) {
            Some(t) => t.id == id && exists|i: int|
                0 <= i < transactions.len() && #[trigger] transactions[i] == t,
            None => forall|i: int|
                0 <= i < transactions.len() ==> (#[trigger] transactions[i]).id != id,
        },
    decreases transactions.len(),
{
    if transactions.len() > 0 {
        let front = transactions.drop_last();
        lemma_find_transaction(front, id);
        if transactions.last().id == id {
            assert(transactions[transactions.len() - 1] == transactions.last());
        } else {
            match find_transaction(front, id) {
                Some(t) => {
                    let i = choose|i: int| 0 <= i < front.len() && #[trigger] front[i] == t;
                    assert(transactions[i] == t);
                },
                None => {
                    assert forall|i: int| 0 <= i < transactions.len() implies (
                    #[trigger] transactions[i]).id != id by {
                        if i < front.len() {
                            assert(front[i] == transactions[i]);
                        }
                    }
                },
            }
        }
    }
}

/// The account that a request opens under the given id at the given time:
/// its balance is zero.
pub open spec fn opened(id: i64, request: CreateAccountRequest, now: i64) -> Account {
    Account {
        id,
        code: request.code,
        name: request.name,
        account_type: request.account_type,
        parent_id: request.parent_id,
        balance: Money::of(0, 0),
        created_at: now,
        updated_at: now,
    }
}

/// Why a request to open an account is refused, if it is: its code is
/// taken; or it names a parent that the books do not hold; or no id is left.
pub open spec fn opening_refusal(
    accounts: Seq<Account>,
    next_id: i64,
    request: CreateAccountRequest,
) -> Option<LedgerError> {
    if find_account_by_code(accounts, request.code@) is Some {
        Some(LedgerError::DuplicateCode)
    } else if request.parent_id is Some && find_account(accounts, request.parent_id->0) is None {
        Some(LedgerError::InvalidParent)
    } else if next_id == i64::MAX {
        Some(LedgerError::IdsExhausted)
    } else {
        None
    }
}

/// An account after a change at the time `now`: the name and the parent are
/// replaced where the request gives them.
pub open spec fn changed(current: Account, request: UpdateAccountRequest, now: i64) -> Account {
    Account {
        name: match request.name {
            Some(name) => name,
            None => current.name,
        },
        parent_id: match request.parent_id {
            Some(parent) => Some(parent),
            None => current.parent_id,
        },
        updated_at: now,
        ..current
    }
}

/// Why a change to the account `id` is refused, if it is: the parent it
/// names is not in the books, or is the account itself.
pub open spec fn change_refusal(
    accounts: Seq<Account>,
    id: i64,
    request: UpdateAccountRequest,
) -> Option<LedgerError> {
    match request.parent_id {
        Some(parent) => if find_account(accounts, parent) is None {
            Some(LedgerError::InvalidParent)
        } else if parent == id {
            Some(LedgerError::SelfParent)
        } else {
            None
        },
        None => None,
    }
}

/// The accounts with the one that has the id of `account` replaced by it.
pub open spec fn with_account_replaced(accounts: Seq<Account>, account: Account) -> Seq<Account> {
    Seq::new(
        accounts.len(),
        |i: int|
            if accounts[i].id == account.id {
                account
            } else {
                accounts[i]
            },
    )
}

/// The accounts without the one that has the given id.
pub open spec fn without_account(accounts: Seq<Account>, id: i64) -> Seq<Account>
    decreases accounts.len(),
{
    if accounts.len() == 0 {
        accounts
    } else if accounts.last().id == id {
        without_account(accounts.drop_last(), id)
    } else {
        without_account(accounts.drop_last(), id).push(accounts.last())
    }
}

/// Where no account has the id, taking it away changes nothing.
pub proof fn lemma_without_absent(accounts: Seq<Account>, id: i64)
    requires
        forall|i: int| 0 <= i < accounts.len() ==> (#[trigger] accounts[i]).id != id,
    ensures
        without_account(accounts, id) == accounts,
    decreases accounts.len(),
{
    if accounts.len() > 0 {
        let front = accounts.drop_last();
        assert forall|i: int| 0 <= i < front.len() implies (#[trigger] front[i]).id != id by {
            assert(front[i] == accounts[i]);
        }
        lemma_without_absent(front, id);
        assert(accounts[accounts.len() - 1].id != id);
        assert(front.push(accounts.last()) =~= accounts);
    }
}

/// Where ids do not repeat, taking away the id of the account at position
/// `i` removes that position and nothing else.
pub proof fn lemma_without_at(accounts: Seq<Account>, i: int)
    requires
        0 <= i < accounts.len(),
        forall|a: int, b: int|
            0 <= a < b < accounts.len() ==> (#[trigger] accounts[a]).id < (
            #[trigger] accounts[b]).id,
    ensures
        without_account(accounts, accounts[i].id) == accounts.remove(i),
    decreases accounts.len(),
{
    let id = accounts[i].id;
    let front = accounts.drop_last();
    if i == accounts.len() - 1 {
        assert forall|k: int| 0 <= k < front.len() implies (#[trigger] front[k]).id != id by {
            assert(front[k] == accounts[k]);
            assert(accounts[k].id < accounts[i].id);
        }
        lemma_without_absent(front, id);
        assert(accounts.remove(i) =~= front);
    } else {
        assert(accounts[i].id < accounts[accounts.len() - 1].id);
        assert forall|a: int, b: int| 0 <= a < b < front.len() implies (#[trigger] front[a]).id < (
        #[trigger] front[b]).id by {
            assert(front[a] == accounts[a] && front[b] == accounts[b]);
        }
        assert(front[i] == accounts[i]);
        lemma_without_at(front, i);
        assert(front.remove(i).push(accounts.last()) =~= accounts.remove(i));
    }
}

/// The journal entry that the books store for the request at position `k`
/// of a transaction: a side that the request leaves out holds zero.
pub open spec fn stored_entry(
    first_id: i64,
    transaction_id: i64,
    request: CreateJournalEntryRequest,
    k: int,
    now: i64,
) -> JournalEntry {
    JournalEntry {
        id: (first_id + k) as i64,
        transaction_id,
        account_id: request.account_id,
        debit_amount: request.debit_or_zero(),
        credit_amount: request.credit_or_zero(),
        description: request.description,
        created_at: now,
    }
}

/// The journal entries that the books store for the requests of a
/// transaction, in the order of the requests, under consecutive ids.
pub open spec fn stored_entries(
    first_id: i64,
    transaction_id: i64,
    requests: Seq<CreateJournalEntryRequest>,
    now: i64,
) -> Seq<JournalEntry> {
    Seq::new(requests.len(), |k: int| stored_entry(first_id, transaction_id, requests[k], k, now))
}

/// A journal entry shown with the code and name of its account.
pub open spec fn joined_entry(entry: JournalEntry, account: Account) -> JournalEntryWithAccount {
    JournalEntryWithAccount {
        id: entry.id,
        transaction_id: entry.transaction_id,
        account_id: entry.account_id,
        account_code: account.code,
        account_name: account.name,
        debit_amount: entry.debit_amount,
        credit_amount: entry.credit_amount,
        description: entry.description,
        created_at: entry.created_at,
    }
}

/// The header that the books store for a transaction request.
pub open spec fn header(id: i64, request: CreateTransactionRequest, now: i64) -> Transaction {
    Transaction {
        id,
        description: request.description,
        reference: request.reference,
        transaction_date: request.transaction_date,
        created_at: now,
        updated_at: now,
    }
}

/// Whether the books hold the account of every request.
pub open spec fn all_accounts_known(
    accounts: Seq<Account>,
    requests: Seq<CreateJournalEntryRequest>,
) -> bool {
    forall|k: int|
        0 <= k < requests.len() ==> find_account(accounts, (#[trigger] requests[k]).account_id)
            is Some
}

/// Whether `k` is the first position, counted from 0, of a request whose
/// account the books do not hold.
pub open spec fn is_first_unknown(
    accounts: Seq<Account>,
    requests: Seq<CreateJournalEntryRequest>,
    k: int,
) -> bool {
    &&& 0 <= k < requests.len()
    &&& find_account(accounts, requests[k].account_id) is None
    &&& all_accounts_known(accounts, requests.take(k))
}

/// Whether `rows` can be stored as the journal entries of a new transaction
/// `id`: each is well formed, one-sided and of that transaction; their ids
/// ascend, from `first` and below `limit`; and their debits add up to their
/// credits.
pub open spec fn storable(rows: Seq<JournalEntry>, id: i64, first: i64, limit: i64) -> bool {
    &&& forall|k: int|
        0 <= k < rows.len() ==> (#[trigger] rows[k]).wf() && one_sided(rows[k])
            && rows[k].transaction_id == id && first <= rows[k].id < limit
    &&& forall|i: int, j: int|
        0 <= i < j < rows.len() ==> (#[trigger] rows[i]).id < (#[trigger] rows[j]).id
    &&& total_units(side_column(rows, Side::Debit)) == total_units(side_column(rows, Side::Credit))
    &&& checked_total(side_column(rows, Side::Debit)) is Some
    &&& checked_total(side_column(rows, Side::Credit)) is Some
}

/// Storing a balanced transaction keeps the books consistent: under fresh
/// ids, its entries change the sums of no other transaction, and its own
/// debits add up to its credits.
pub proof fn lemma_storing_keeps_wf(
    transactions: Seq<Transaction>,
    entries: Seq<JournalEntry>,
    next_transaction_id: i64,
    next_entry_id: i64,
    head: Transaction,
    rows: Seq<JournalEntry>,
    limit: i64,
)
    requires
        next_transaction_id >= 1,
        next_entry_id >= 1,
        transactions_wf(transactions, next_transaction_id),
        entries_wf(entries, next_entry_id, transactions),
        all_balanced(entries, transactions),
        all_whole(entries, transactions),
        next_transaction_id <= head.id < i64::MAX,
        next_entry_id <= limit,
        storable(rows, head.id, next_entry_id, limit),
    ensures
        transactions_wf(transactions.push(head), (head.id + 1) as i64),
        entries_wf(entries + rows, limit, transactions.push(head)),
        all_balanced(entries + rows, transactions.push(head)),
        all_whole(entries + rows, transactions.push(head)),
        sum_units(entries + rows, Selector::OfTransaction(head.id), Side::Debit) == sum_units(
            entries + rows,
            Selector::OfTransaction(head.id),
            Side::Credit,
        ),
{
    let all = entries + rows;
    let heads = transactions.push(head);
    let own = Selector::OfTransaction(head.id);
    assert forall|i: int| 0 <= i < all.len() implies #[trigger] all[i] == (if i < entries.len() {
        entries[i]
    } else {
        rows[i - entries.len()]
    }) by {}
    // Every entry belongs to a transaction of the books.
    assert forall|i: int| 0 <= i < all.len() implies find_transaction(
        heads,
        (#[trigger] all[i]).transaction_id,
    ) is Some by {
        assert(heads.drop_last() =~= transactions);
    }
    assert(entries_wf(all, limit, heads));
    // No earlier entry belongs to the new transaction.
    assert forall|i: int| 0 <= i < entries.len() implies !own.selects(#[trigger] entries[i]) by {
        lemma_find_transaction(transactions, entries[i].transaction_id);
    }
    assert forall|side: Side| #[trigger]
        sum_units(all, own, side) == total_units(side_column(rows, side)) by {
        lemma_sum_units_append(entries, rows, own, side);
        lemma_sum_units_none(entries, own, side);
        lemma_sum_units_every(rows, own, side);
    }
    assert(sum_units(all, own, Side::Debit) == sum_units(all, own, Side::Credit));
    assert forall|i: int| 0 <= i < heads.len() implies sum_units(
        all,
        Selector::OfTransaction((#[trigger] heads[i]).id),
        Side::Debit,
    ) == sum_units(all, Selector::OfTransaction(heads[i].id), Side::Credit) by {
        if i < transactions.len() {
            let other = Selector::OfTransaction(transactions[i].id);
            assert(heads[i] == transactions[i]);
            assert forall|k: int| 0 <= k < rows.len() implies !other.selects(
                #[trigger] rows[k],
            ) by {}
            lemma_sum_units_append(entries, rows, other, Side::Debit);
            lemma_sum_units_append(entries, rows, other, Side::Credit);
            lemma_sum_units_none(rows, other, Side::Debit);
            lemma_sum_units_none(rows, other, Side::Credit);
        }
    }
    assert forall|i: int| 0 <= i < heads.len() implies {
        let group = Selector::OfTransaction((#[trigger] heads[i]).id);
        &&& checked_total(selected_amounts(all, group, Side::Debit)) is Some
        &&& checked_total(selected_amounts(all, group, Side::Credit)) is Some
    } by {
        let group = Selector::OfTransaction(heads[i].id);
        lemma_selected_append(entries, rows, group, Side::Debit);
        lemma_selected_append(entries, rows, group, Side::Credit);
        if i < transactions.len() {
            assert(heads[i] == transactions[i]);
            assert forall|k: int| 0 <= k < rows.len() implies !group.selects(#[trigger] rows[k]) by {}
            lemma_selected_none(rows, group, Side::Debit);
            lemma_selected_none(rows, group, Side::Credit);
            assert(selected_amounts(entries, group, Side::Debit) + Seq::<Money>::empty()
                =~= selected_amounts(entries, group, Side::Debit));
            assert(selected_amounts(entries, group, Side::Credit) + Seq::<Money>::empty()
                =~= selected_amounts(entries, group, Side::Credit));
        } else {
            lemma_selected_none(entries, group, Side::Debit);
            lemma_selected_none(entries, group, Side::Credit);
            lemma_selected_every(rows, group, Side::Debit);
            lemma_selected_every(rows, group, Side::Credit);
            assert(Seq::<Money>::empty() + side_column(rows, Side::Debit) =~= side_column(
                rows,
                Side::Debit,
            ));
            assert(Seq::<Money>::empty() + side_column(rows, Side::Credit) =~= side_column(
                rows,
                Side::Credit,
            ));
        }
    }
}

/// The entries stored for a request that is accepted can be stored.
pub proof fn lemma_stored_entries_storable(
    next_transaction_id: i64,
    next_entry_id: i64,
    requests: Seq<CreateJournalEntryRequest>,
    now: i64,
)
    requires
        next_entry_id >= 1,
        next_entry_id + requests.len() <= i64::MAX,
        all_entries_valid(requests),
        forall|k: int| 0 <= k < requests.len() ==> (#[trigger] requests[k]).wf(),
        total_units(debit_column(requests)) == total_units(credit_column(requests)),
        checked_total(debit_column(requests)) is Some,
        checked_total(credit_column(requests)) is Some,
    ensures
        storable(
            stored_entries(next_entry_id, next_transaction_id, requests, now),
            next_transaction_id,
            next_entry_id,
            (next_entry_id + requests.len()) as i64,
        ),
{
    let rows = stored_entries(next_entry_id, next_transaction_id, requests, now);
    Money::lemma_zero();
    assert forall|k: int| 0 <= k < rows.len() implies (#[trigger] rows[k]).wf() && one_sided(
        rows[k],
    ) && rows[k].transaction_id == next_transaction_id && rows[k].id == next_entry_id + k by {
        assert(requests[k].wf());
        assert(requests[k].spec_validate() is Ok);
    }
    assert(side_column(rows, Side::Debit) =~= debit_column(requests));
    assert(side_column(rows, Side::Credit) =~= credit_column(requests));
}

/// The journal entries of the transaction `id`, each shown with the code and
/// name of its account, in the order of their ids. An entry whose account
/// the books no longer hold is not shown.
pub open spec fn shown_entries(
    entries: Seq<JournalEntry>,
    accounts: Seq<Account>,
    id: i64,
) -> Seq<JournalEntryWithAccount>
    decreases entries.len(),
{
    if entries.len() == 0 {
        Seq::empty()
    } else {
        let front = shown_entries(entries.drop_last(), accounts, id);
        let entry = entries.last();
        match find_account(accounts, entry.account_id) {
            Some(account) => if entry.transaction_id == id {
                front.push(joined_entry(entry, account))
            } else {
                front
            },
            None => front,
        }
    }
}

/// Whether every entry of the transaction `id` is on an account that the
/// sequence of accounts holds.
pub open spec fn transaction_resolved(
    entries: Seq<JournalEntry>,
    accounts: Seq<Account>,
    id: i64,
) -> bool {
    forall|i: int|
        0 <= i < entries.len() && (#[trigger] entries[i]).transaction_id == id ==> find_account(
            accounts,
            entries[i].account_id,
        ) is Some
}

/// The amounts on one side of the shown entries, in order.
pub open spec fn shown_column(shown: Seq<JournalEntryWithAccount>, side: Side) -> Seq<Money> {
    Seq::new(
        shown.len(),
        |i: int|
            match side {
                Side::Debit => shown[i].debit_amount,
                Side::Credit => shown[i].credit_amount,
            },
    )
}

/// Where every entry of a transaction is on an account that the books
/// hold, all its entries are shown: the columns of the shown entries are
/// the columns of the transaction.
pub proof fn lemma_shown_is_whole(
    entries: Seq<JournalEntry>,
    accounts: Seq<Account>,
    id: i64,
    side: Side,
)
    requires
        transaction_resolved(entries, accounts, id),
    ensures
        shown_column(shown_entries(entries, accounts, id), side) == selected_amounts(
            entries,
            Selector::OfTransaction(id),
            side,
        ),
    decreases entries.len(),
{
    let shown = shown_entries(entries, accounts, id);
    if entries.len() == 0 {
        assert(shown_column(shown, side) =~= Seq::<Money>::empty());
    } else {
        let front = entries.drop_last();
        assert(transaction_resolved(front, accounts, id)) by {
            assert forall|i: int|
                0 <= i < front.len() && (#[trigger] front[i]).transaction_id
                    == id implies find_account(accounts, front[i].account_id) is Some by {
                assert(front[i] == entries[i]);
            }
        }
        lemma_shown_is_whole(front, accounts, id, side);
        let before = shown_entries(front, accounts, id);
        let entry = entries.last();
        assert(entry == entries[entries.len() - 1]);
        if entry.transaction_id == id {
            assert(shown_column(shown, side) =~= shown_column(before, side).push(
                side.amount_of(entry),
            ));
        }
    }
}

/// The rows of a transaction, each joined with its account.
pub open spec fn joined_rows(rows: Seq<JournalEntry>, accounts: Seq<Account>) -> Seq<
    JournalEntryWithAccount,
> {
    Seq::new(
        rows.len(),
        |k: int| joined_entry(rows[k], find_account(accounts, rows[k].account_id)->0),
    )
}

/// Behind entries of other transactions, the rows of the transaction `id`,
/// all on accounts that the books hold, are what the books show of it.
pub proof fn lemma_shown_of_appended(
    entries: Seq<JournalEntry>,
    rows: Seq<JournalEntry>,
    accounts: Seq<Account>,
    id: i64,
)
    requires
        forall|i: int| 0 <= i < entries.len() ==> (#[trigger] entries[i]).transaction_id != id,
        forall|k: int|
            0 <= k < rows.len() ==> (#[trigger] rows[k]).transaction_id == id && find_account(
                accounts,
                rows[k].account_id,
            ) is Some,
    ensures
        shown_entries(entries + rows, accounts, id) == joined_rows(rows, accounts),
    decreases entries.len() + rows.len(),
{
    let all = entries + rows;
    if rows.len() > 0 {
        let front = rows.drop_last();
        assert forall|k: int| 0 <= k < front.len() implies (#[trigger] front[k]).transaction_id
            == id && find_account(accounts, front[k].account_id) is Some by {
            assert(front[k] == rows[k]);
        }
        lemma_shown_of_appended(entries, front, accounts, id);
        assert(all.drop_last() =~= entries + front);
        assert(all.last() == rows[rows.len() - 1]);
        assert(joined_rows(front, accounts).push(
            joined_entry(rows.last(), find_account(accounts, rows.last().account_id)->0),
        ) =~= joined_rows(rows, accounts));
    } else if entries.len() > 0 {
        let front = entries.drop_last();
        assert forall|i: int| 0 <= i < front.len() implies (#[trigger] front[i]).transaction_id
            != id by {
            assert(front[i] == entries[i]);
        }
        lemma_shown_of_appended(front, rows, accounts, id);
        assert(all.drop_last() =~= front + rows);
        assert(all.last() == entries[entries.len() - 1]);
    } else {
        assert(all =~= Seq::<JournalEntry>::empty());
        assert(joined_rows(rows, accounts) =~= Seq::<JournalEntryWithAccount>::empty());
    }
}

/// The order of accounts by code.
pub struct AccountsByCode {}

impl Ranking<Account> for AccountsByCode {
    open spec fn at_most(a: Account, b: Account) -> bool {
        text_at_most(a.code@, b.code@)
    }

    proof fn total(a: Account, b: Account) {
        lemma_text_before_total(a.code@, b.code@);
    }

    proof fn transitive(a: Account, b: Account, c: Account) {
        lemma_text_at_most_transitive(a.code@, b.code@, c.code@);
    }

    fn precedes(a: &Account, b: &Account) -> (r: bool) {
        !str_less(b.code.as_str(), a.code.as_str())
    }
}

/// The books.
pub struct Database {
    accounts: Vec<Account>,
    transactions: Vec<Transaction>,
    entries: Vec<JournalEntry>,
    next_account_id: i64,
    next_transaction_id: i64,
    next_entry_id: i64,
}

impl Database {
    /// The accounts, in the order of their ids.
    pub closed spec fn accounts(&self) -> Seq<Account> {
        self.accounts@
    }

    /// The transactions, in the order of their ids.
    pub closed spec fn transactions(&self) -> Seq<Transaction> {
        self.transactions@
    }

    /// The journal entries, in the order of their ids.
    pub closed spec fn entries(&self) -> Seq<JournalEntry> {
        self.entries@
    }

    /// The id that the next account gets.
    pub closed spec fn next_account_id(&self) -> i64 {
        self.next_account_id
    }

    /// The id that the next transaction gets.
    pub closed spec fn next_transaction_id(&self) -> i64 {
        self.next_transaction_id
    }

    /// The id that the next journal entry gets.
    pub closed spec fn next_entry_id(&self) -> i64 {
        self.next_entry_id
    }

    /// Whether the books are consistent. Every operation keeps them so.
    pub open spec fn wf(&self) -> bool {
        &&& self.next_account_id() >= 1
        &&& self.next_transaction_id() >= 1
        &&& self.next_entry_id() >= 1
        &&& accounts_wf(self.accounts(), self.next_account_id())
        &&& transactions_wf(self.transactions(), self.next_transaction_id())
        &&& entries_wf(self.entries(), self.next_entry_id(), self.transactions())
        &&& all_balanced(self.entries(), self.transactions())
        &&& all_whole(self.entries(), self.transactions())
    }

    /// Books with nothing in them.
    pub fn new() -> (r: Database)
        ensures
            r.wf(),
            r.accounts().len() == 0,
            r.transactions().len() == 0,
            r.entries().len() == 0,
            r.next_account_id() == 1,
            r.next_transaction_id() == 1,
            r.next_entry_id() == 1,
    {
        Database {
            accounts: Vec::new(),
            transactions: Vec::new(),
            entries: Vec::new(),
            next_account_id: 1,
            next_transaction_id: 1,
            next_entry_id: 1,
        }
    }

    /// The position of the account with the given id.
    fn account_position(&self, id: i64) -> (r: Option<usize>)
        ensures
            match r {
                Some(i) => i < self.accounts().len() && self.accounts()[i as int].id == id
                    && find_account(self.accounts(), id) == Some(self.accounts()[i as int]),
                None => find_account(self.accounts(), id) is None,
            },
    {
        let mut i: usize = self.accounts.len();
        assert(self.accounts@.take(i as int) =~= self.accounts@);
        while i > 0
            invariant
                i <= self.accounts.len(),
                find_account(self.accounts@, id) == find_account(self.accounts@.take(i as int), id),
            decreases i,
        {
            if self.accounts[i - 1].id == id {
                return Some(i - 1);
            }
            assert(self.accounts@.take(i as int).drop_last() =~= self.accounts@.take(i - 1));
            i = i - 1;
        }
        None
    }

    /// The account with the given id, if the books hold it.
    pub fn get_account(&self, id: i64) -> (r: Option<Account>)
        ensures
            r == find_account(self.accounts(), id),
    {
        match self.account_position(id) {
            Some(i) => Some(self.accounts[i].clone()),
            None => None,
        }
    }

    /// The account with the given code, if the books hold it.
    pub fn get_account_by_code(&self, code: &str) -> (r: Option<Account>)
        ensures
            r == find_account_by_code(self.accounts(), code@),
    {
        let wanted = String::from_str(code);
        let mut i: usize = self.accounts.len();
        assert(self.accounts@.take(i as int) =~= self.accounts@);
        while i > 0
            invariant
                i <= self.accounts.len(),
                wanted@ == code@,
                find_account_by_code(self.accounts@, code@) == find_account_by_code(
                    self.accounts@.take(i as int),
                    code@,
                ),
            decreases i,
        {
            if self.accounts[i - 1].code == wanted {
                return Some(self.accounts[i - 1].clone());
            }
            assert(self.accounts@.take(i as int).drop_last() =~= self.accounts@.take(i - 1));
            i = i - 1;
        }
        None
    }

    /// All accounts, ordered by code.
    pub fn list_accounts(&self) -> (r: Vec<Account>)
        ensures
            r@ == sorted::<Account, AccountsByCode>(self.accounts()),
    {
        let mut listing: Vec<Account> = Vec::new();
        let mut i: usize = 0;
        while i < self.accounts.len()
            invariant
                i <= self.accounts.len(),
                listing@ == self.accounts@.take(i as int),
            decreases self.accounts.len() - i,
        {
            listing.push(self.accounts[i].clone());
            assert(self.accounts@.take(i + 1) =~= self.accounts@.take(i as int).push(
                self.accounts@[i as int],
            ));
            i = i + 1;
        }
        assert(self.accounts@.take(i as int) =~= self.accounts@);
        sort::<Account, AccountsByCode>(&mut listing);
        listing
    }

    /// Opens an account under the next id, with a balance of zero. The code
    /// must be new to the books, and a parent, where one is named, must be
    /// in them.
    pub fn create_account(&mut self, request: CreateAccountRequest, now: i64) -> (r: Result<
        Account,
        LedgerError,
    >)
        requires
            old(self).wf(),
        ensures
            final(self).wf(),
            final(self).transactions() == old(self).transactions(),
            final(self).entries() == old(self).entries(),
            final(self).next_transaction_id() == old(self).next_transaction_id(),
            final(self).next_entry_id() == old(self).next_entry_id(),
            match opening_refusal(old(self).accounts(), old(self).next_account_id(), request) {
                Some(e) => {
                    &&& r == Err::<Account, LedgerError>(e)
                    &&& final(self).accounts() == old(self).accounts()
                    &&& final(self).next_account_id() == old(self).next_account_id()
                },
                None => {
                    &&& r == Ok::<Account, LedgerError>(
                        opened(old(self).next_account_id(), request, now),
                    )
                    &&& final(self).accounts() == old(self).accounts().push(r->Ok_0)
                    &&& final(self).next_account_id() == old(self).next_account_id() + 1
                },
            },
    {
        if self.get_account_by_code(request.code.as_str()).is_some() {
            return Err(LedgerError::DuplicateCode);
        }
        if let Some(parent) = request.parent_id {
            if self.account_position(parent).is_none() {
                return Err(LedgerError::InvalidParent);
            }
        }
        if self.next_account_id == i64::MAX {
            return Err(LedgerError::IdsExhausted);
        }
        let account = Account {
            id: self.next_account_id,
            code: request.code,
            name: request.name,
            account_type: request.account_type,
            parent_id: request.parent_id,
            balance: Money::zero(),
            created_at: now,
            updated_at: now,
        };
        let copy = account.clone();
        let ghost before = self.accounts@;
        proof {
            lemma_find_account_by_code(before, account.code@);
            if let Some(parent) = account.parent_id {
                lemma_find_account(before, parent);
            }
        }
        self.accounts.push(account);
        self.next_account_id = self.next_account_id + 1;
        proof {
            let after = self.accounts@;
            assert forall|i: int| 0 <= i < after.len() implies #[trigger] after[i] == (if i
                < before.len() {
                before[i]
            } else {
                copy
            }) by {}
            assert(accounts_wf(after, self.next_account_id));
        }
        Ok(copy)
    }

    /// Changes the name and the parent of the account `id` where the
    /// request gives them, and stamps the change with `now`. Returns the
    /// account as changed, or nothing where the books hold no such account.
    pub fn update_account(&mut self, id: i64, request: UpdateAccountRequest, now: i64) -> (r:
        Result<Option<Account>, LedgerError>)
        requires
            old(self).wf(),
        ensures
            final(self).wf(),
            final(self).transactions() == old(self).transactions(),
            final(self).entries() == old(self).entries(),
            final(self).next_account_id() == old(self).next_account_id(),
            final(self).next_transaction_id() == old(self).next_transaction_id(),
            final(self).next_entry_id() == old(self).next_entry_id(),
            match find_account(old(self).accounts(), id) {
                None => {
                    &&& r == Ok::<Option<Account>, LedgerError>(None)
                    &&& final(self).accounts() == old(self).accounts()
                },
                Some(current) => match change_refusal(old(self).accounts(), id, request) {
                    Some(e) => {
                        &&& r == Err::<Option<Account>, LedgerError>(e)
                        &&& final(self).accounts() == old(self).accounts()
                    },
                    None => {
                        &&& r == Ok::<Option<Account>, LedgerError>(
                            Some(changed(current, request, now)),
                        )
                        &&& final(self).accounts() == with_account_replaced(
                            old(self).accounts(),
                            changed(current, request, now),
                        )
                    },
                },
            },
    {
        let position = match self.account_position(id) {
            Some(position) => position,
            None => {
                return Ok(None);
            },
        };
        if let Some(parent) = request.parent_id {
            if self.account_position(parent).is_none() {
                return Err(LedgerError::InvalidParent);
            }
            if parent == id {
                return Err(LedgerError::SelfParent);
            }
        }
        let current = &self.accounts[position];
        let updated = Account {
            id: current.id,
            code: current.code.clone(),
            name: match request.name {
                Some(name) => name,
                None => current.name.clone(),
            },
            account_type: current.account_type,
            parent_id: match request.parent_id {
                Some(parent) => Some(parent),
                None => current.parent_id,
            },
            balance: current.balance,
            created_at: current.created_at,
            updated_at: now,
        };
        let copy = updated.clone();
        let ghost before = self.accounts@;
        self.accounts.set(position, updated);
        proof {
            assert(self.accounts@ =~= with_account_replaced(before, copy)) by {
                assert forall|i: int| 0 <= i < before.len() implies #[trigger] self.accounts@[i]
                    == with_account_replaced(before, copy)[i] by {
                    if i < position {
                        assert(before[i].id < before[position as int].id);
                    } else if i > position {
                        assert(before[position as int].id < before[i].id);
                    }
                }
            }
            assert(accounts_wf(self.accounts@, self.next_account_id)) by {
                assert forall|i: int| 0 <= i < before.len() implies (
                #[trigger] self.accounts@[i]).id == before[i].id && self.accounts@[i].code
                    == before[i].code && self.accounts@[i].balance == before[i].balance by {}
            }
        }
        Ok(Some(copy))
    }

    /// Takes the account `id` out of the books, whether or not journal
    /// entries name it. Returns whether there was such an account.
    pub fn delete_account(&mut self, id: i64) -> (r: bool)
        requires
            old(self).wf(),
        ensures
            final(self).wf(),
            r == (find_account(old(self).accounts(), id) is Some),
            final(self).accounts() == without_account(old(self).accounts(), id),
            final(self).transactions() == old(self).transactions(),
            final(self).entries() == old(self).entries(),
            final(self).next_account_id() == old(self).next_account_id(),
            final(self).next_transaction_id() == old(self).next_transaction_id(),
            final(self).next_entry_id() == old(self).next_entry_id(),
    {
        let ghost before = self.accounts@;
        match self.account_position(id) {
            Some(position) => {
                proof {
                    lemma_without_at(before, position as int);
                }
                self.accounts.remove(position);
                proof {
                    assert(accounts_wf(self.accounts@, self.next_account_id)) by {
                        assert forall|i: int| 0 <= i < self.accounts@.len() implies #[trigger] self.accounts@[i]
                            == before[if i < position {
                            i
                        } else {
                            i + 1
                        }] by {}
                    }
                }
                true
            },
            None => {
                proof {
                    lemma_find_account(before, id);
                    lemma_without_absent(before, id);
                }
                false
            },
        }
    }

    /// Whether the books have ids left for one more transaction with `n`
    /// journal entries.
    pub open spec fn has_room(&self, n: nat) -> bool {
        self.next_transaction_id() < i64::MAX && self.next_entry_id() + n <= i64::MAX
    }

    /// Whether `e` is the reason for which the books refuse to post the
    /// request: it does not pass validation; or, failing that, one of its
    /// entries names an account that the books do not hold, and the first
    /// such account is reported; or, failing that, the books have no ids
    /// left.
    pub open spec fn refuses_posting(&self, request: CreateTransactionRequest, e: LedgerError) -> bool {
        let requests = request.journal_entries@;
        if !request.accepted() {
            e matches LedgerError::Validation(v) && judged(
                requests,
                Err::<(Money, Money), ValidationError>(v),
            )
        } else if !all_accounts_known(self.accounts(), requests) {
            exists|k: int| #[trigger]
                is_first_unknown(self.accounts(), requests, k) && e == (
                LedgerError::UnknownAccount { account_id: requests[k].account_id })
        } else {
            !self.has_room(requests.len()) && e == LedgerError::IdsExhausted
        }
    }

    /// Whether `after` and `posted` are what posting the request at the time
    /// `now` makes of these books: the header and the entries are stored
    /// under the next ids, the entries in the order of the request, and
    /// `posted` shows them with the accounts and the totals.
    pub open spec fn posts(
        &self,
        request: CreateTransactionRequest,
        now: i64,
        after: Database,
        posted: TransactionWithEntries,
    ) -> bool {
        let requests = request.journal_entries@;
        let rows = stored_entries(self.next_entry_id(), self.next_transaction_id(), requests, now);
        &&& request.accepted()
        &&& all_accounts_known(self.accounts(), requests)
        &&& self.has_room(requests.len())
        &&& posted.transaction == header(self.next_transaction_id(), request, now)
        &&& posted.journal_entries@.len() == requests.len()
        &&& forall|k: int|
            0 <= k < requests.len() ==> #[trigger] posted.journal_entries@[k] == joined_entry(
                rows[k],
                find_account(self.accounts(), requests[k].account_id)->0,
            )
        &&& judged(
            requests,
            Ok::<(Money, Money), ValidationError>((posted.total_debits, posted.total_credits)),
        )
        &&& after.accounts() == self.accounts()
        &&& after.next_account_id() == self.next_account_id()
        &&& after.transactions() == self.transactions().push(posted.transaction)
        &&& after.entries() == self.entries() + rows
        &&& after.next_transaction_id() == self.next_transaction_id() + 1
        &&& after.next_entry_id() == self.next_entry_id() + requests.len()
    }

    /// Whether the books hold a transaction with the given id.
    pub fn has_transaction(&self, id: i64) -> (r: bool)
        ensures
            r == (find_transaction(self.transactions(), id) is Some),
    {
        self.transaction_position(id).is_some()
    }

    /// The account of the first entry whose account the books do not hold;
    /// nothing where they hold them all.
    pub fn unknown_account(&self, requests: &Vec<CreateJournalEntryRequest>) -> (r: Option<i64>)
        ensures
            match r {
                Some(id) => exists|k: int| #[trigger]
                    is_first_unknown(self.accounts(), requests@, k) && id
                        == requests@[k].account_id,
                None => all_accounts_known(self.accounts(), requests@),
            },
    {
        let mut k: usize = 0;
        while k < requests.len()
            invariant
                k <= requests.len(),
                all_accounts_known(self.accounts@, requests@.take(k as int)),
            decreases requests.len() - k,
        {
            if self.account_position(requests[k].account_id).is_none() {
                assert(is_first_unknown(self.accounts(), requests@, k as int));
                return Some(requests[k].account_id);
            }
            proof {
                let longer = requests@.take(k + 1);
                assert forall|j: int| 0 <= j < longer.len() implies find_account(
                    self.accounts@,
                    (#[trigger] longer[j]).account_id,
                ) is Some by {
                    if j < k {
                        assert(longer[j] == requests@.take(k as int)[j]);
                    }
                }
            }
            k = k + 1;
        }
        assert(requests@.take(k as int) =~= requests@);
        None
    }

    /// Posts a transaction: validates the request once more, then stores the
    /// header and, in the order of the request, its journal entries, each
    /// read back with the code and name of its account. Either all of it is
    /// stored or nothing is: a request that is refused leaves the books
    /// exactly as they were.
    ///
    /// The debits of what is stored add up to exactly its credits.
    pub fn create_transaction(&mut self, request: CreateTransactionRequest, now: i64) -> (r:
        Result<TransactionWithEntries, LedgerError>)
        requires
            old(self).wf(),
        ensures
            final(self).wf(),
            match r {
                Ok(posted) => {
                    &&& old(self).posts(request, now, *final(self), posted)
                    &&& final(self).shows(posted.transaction.id, posted)
                    &&& posted.total_debits@ == posted.total_credits@
                    &&& sum_units(
                        final(self).entries(),
                        Selector::OfTransaction(posted.transaction.id),
                        Side::Debit,
                    ) == sum_units(
                        final(self).entries(),
                        Selector::OfTransaction(posted.transaction.id),
                        Side::Credit,
                    )
                },
                Err(e) => old(self).refuses_posting(request, e) && *final(self) == *old(self),
            },
    {
        let (total_debits, total_credits) = match request.totals() {
            Ok(totals) => totals,
            Err(e) => {
                proof {
                    lemma_judged_once(
                        request.journal_entries@,
                        Err::<(Money, Money), ValidationError>(e),
                    );
                }
                return Err(LedgerError::Validation(e));
            },
        };
        proof {
            lemma_judged_once(
                request.journal_entries@,
                Ok::<(Money, Money), ValidationError>((total_debits, total_credits)),
            );
        }
        if let Some(account_id) = self.unknown_account(&request.journal_entries) {
            return Err(LedgerError::UnknownAccount { account_id });
        }
        let count: usize = request.journal_entries.len();
        let spare: u64 = (i64::MAX - self.next_entry_id) as u64;
        if self.next_transaction_id == i64::MAX || spare < (count as u64) {
            return Err(LedgerError::IdsExhausted);
        }
        let id: i64 = self.next_transaction_id;
        let first: i64 = self.next_entry_id;
        let ghost requests = request.journal_entries@;
        let ghost rows = stored_entries(first, id, requests, now);
        let ghost before = *self;
        let head = Transaction {
            id,
            description: request.description,
            reference: request.reference,
            transaction_date: request.transaction_date,
            created_at: now,
            updated_at: now,
        };
        let mut joined: Vec<JournalEntryWithAccount> = Vec::new();
        let mut k: usize = 0;
        while k < count
            invariant
                k <= count,
                count == request.journal_entries@.len(),
                requests == request.journal_entries@,
                rows == stored_entries(first, id, requests, now),
                first + count <= i64::MAX,
                first >= 1,
                all_accounts_known(before.accounts@, requests),
                self.accounts == before.accounts,
                self.transactions == before.transactions,
                self.next_account_id == before.next_account_id,
                self.next_transaction_id == before.next_transaction_id,
                self.next_entry_id == before.next_entry_id,
                self.entries@ == before.entries@ + rows.take(k as int),
                joined@.len() == k,
                forall|j: int|
                    0 <= j < k ==> #[trigger] joined@[j] == joined_entry(
                        rows[j],
                        find_account(before.accounts@, requests[j].account_id)->0,
                    ),
                forall|j: int| 0 <= j < k ==> (#[trigger] requests[j]).wf(),
            decreases count - k,
        {
            let entry = &request.journal_entries[k];
            let debit_amount = match entry.debit_amount {
                Some(d) => {
                    proof {
                        use_type_invariant(d);
                    }
                    d
                },
                None => Money::zero(),
            };
            let credit_amount = match entry.credit_amount {
                Some(c) => {
                    proof {
                        use_type_invariant(c);
                    }
                    c
                },
                None => Money::zero(),
            };
            assert(find_account(self.accounts@, requests[k as int].account_id) is Some);
            let position = match self.account_position(entry.account_id) {
                Some(position) => position,
                None => vstd::pervasive::unreached(),
            };
            let account = &self.accounts[position];
            let entry_id: i64 = first + k as i64;
            let stored = JournalEntry {
                id: entry_id,
                transaction_id: id,
                account_id: entry.account_id,
                debit_amount,
                credit_amount,
                description: clone_optional_text(&entry.description),
                created_at: now,
            };
            let shown = JournalEntryWithAccount {
                id: entry_id,
                transaction_id: id,
                account_id: entry.account_id,
                account_code: account.code.clone(),
                account_name: account.name.clone(),
                debit_amount,
                credit_amount,
                description: clone_optional_text(&entry.description),
                created_at: now,
            };
            proof {
                assert(stored == rows[k as int]);
                assert(rows.take(k + 1) =~= rows.take(k as int).push(rows[k as int]));
                assert(before.entries@ + rows.take(k + 1) =~= (before.entries@ + rows.take(
                    k as int,
                )).push(stored));
            }
            self.entries.push(stored);
            joined.push(shown);
            k = k + 1;
        }
        let copy = head.clone();
        self.transactions.push(head);
        self.next_transaction_id = id + 1;
        self.next_entry_id = first + count as i64;
        proof {
            assert(rows.take(count as int) =~= rows);
            // What was stored is what the books now show of the transaction.
            assert forall|i: int| 0 <= i < before.entries@.len() implies (
            #[trigger] before.entries@[i]).transaction_id != id by {
                lemma_find_transaction(before.transactions@, before.entries@[i].transaction_id);
            }
            assert forall|j: int| 0 <= j < rows.len() implies (#[trigger] rows[j]).transaction_id
                == id && find_account(before.accounts@, rows[j].account_id) is Some by {
                assert(find_account(before.accounts@, requests[j].account_id) is Some);
            }
            lemma_shown_of_appended(before.entries@, rows, before.accounts@, id);
            assert(joined@ =~= joined_rows(rows, before.accounts@));
            assert(shown_column(joined@, Side::Debit) =~= debit_column(requests));
            assert(shown_column(joined@, Side::Credit) =~= credit_column(requests));
            assert(find_transaction(self.transactions@, id) == Some(copy)) by {
                assert(self.transactions@.last() == copy);
            }
            lemma_stored_entries_storable(id, first, requests, now);
            lemma_storing_keeps_wf(
                before.transactions@,
                before.entries@,
                id,
                first,
                copy,
                rows,
                (first + count) as i64,
            );
        }
        Ok(
            TransactionWithEntries {
                transaction: copy,
                journal_entries: joined,
                total_debits,
                total_credits,
            },
        )
    }

    /// Whether the totals of the transaction `id` can be formed: the debits
    /// and the credits of its shown entries can each be added up.
    pub open spec fn totals_fit(&self, id: i64) -> bool {
        let shown = shown_entries(self.entries(), self.accounts(), id);
        checked_total(shown_column(shown, Side::Debit)) is Some && checked_total(
            shown_column(shown, Side::Credit),
        ) is Some
    }

    /// Whether `view` is the transaction `id` as the books show it: its
    /// header, its entries joined with their accounts in the order of their
    /// ids, and the totals added up from those very entries.
    pub open spec fn shows(&self, id: i64, view: TransactionWithEntries) -> bool {
        let shown = shown_entries(self.entries(), self.accounts(), id);
        &&& find_transaction(self.transactions(), id) == Some(view.transaction)
        &&& view.journal_entries@ == shown
        &&& checked_total(shown_column(shown, Side::Debit)) == Some(view.total_debits)
        &&& checked_total(shown_column(shown, Side::Credit)) == Some(view.total_credits)
        &&& view.total_debits@ == total_units(shown_column(shown, Side::Debit))
        &&& view.total_credits@ == total_units(shown_column(shown, Side::Credit))
    }

    /// Whether `outcome` is what reading the transaction `id` gives: the
    /// transaction as the books show it; nothing where they hold no such
    /// transaction; a refusal where its totals cannot be formed.
    pub open spec fn reads(
        &self,
        id: i64,
        outcome: Result<Option<TransactionWithEntries>, LedgerError>,
    ) -> bool {
        match outcome {
            Ok(Some(view)) => self.shows(id, view),
            Ok(None) => find_transaction(self.transactions(), id) is None,
            Err(e) => e == LedgerError::AmountOutOfRange && find_transaction(
                self.transactions(),
                id,
            ) is Some && !self.totals_fit(id),
        }
    }

    /// Whether every entry of the transaction `id` is on an account that
    /// the books hold: so it is until one of its accounts is deleted.
    pub open spec fn resolved(&self, id: i64) -> bool {
        transaction_resolved(self.entries(), self.accounts(), id)
    }

    /// In consistent books, the totals of a transaction whose entries are
    /// all on accounts that the books hold can be formed.
    pub proof fn lemma_resolved_fits(&self, id: i64)
        requires
            self.wf(),
            self.resolved(id),
            find_transaction(self.transactions(), id) is Some,
        ensures
            self.totals_fit(id),
    {
        lemma_find_transaction(self.transactions(), id);
        let found = find_transaction(self.transactions(), id)->0;
        let i = choose|i: int|
            0 <= i < self.transactions().len() && #[trigger] self.transactions()[i] == found;
        assert(self.transactions()[i].id == id);
        lemma_shown_is_whole(self.entries(), self.accounts(), id, Side::Debit);
        lemma_shown_is_whole(self.entries(), self.accounts(), id, Side::Credit);
    }

    /// The position of the transaction with the given id.
    fn transaction_position(&self, id: i64) -> (r: Option<usize>)
        ensures
            match r {
                Some(i) => i < self.transactions().len() && self.transactions()[i as int].id == id
                    && find_transaction(self.transactions(), id) == Some(
                    self.transactions()[i as int],
                ),
                None => find_transaction(self.transactions(), id) is None,
            },
    {
        let mut i: usize = self.transactions.len();
        assert(self.transactions@.take(i as int) =~= self.transactions@);
        while i > 0
            invariant
                i <= self.transactions.len(),
                find_transaction(self.transactions@, id) == find_transaction(
                    self.transactions@.take(i as int),
                    id,
                ),
            decreases i,
        {
            if self.transactions[i - 1].id == id {
                return Some(i - 1);
            }
            assert(self.transactions@.take(i as int).drop_last() =~= self.transactions@.take(
                i - 1,
            ));
            i = i - 1;
        }
        None
    }

    /// The transaction `id` with its journal entries, in the order of their
    /// ids, and the totals of their debits and credits, added up anew from
    /// the entries. Nothing where the books hold no such transaction.
    pub fn get_transaction(&self, id: i64) -> (r: Result<
        Option<TransactionWithEntries>,
        LedgerError,
    >)
        ensures
            self.reads(id, r),
            self.wf() && self.resolved(id) ==> r is Ok,
    {
        proof {
            if self.wf() && self.resolved(id) && find_transaction(self.transactions(), id)
                is Some {
                self.lemma_resolved_fits(id);
            }
        }
        let position = match self.transaction_position(id) {
            Some(position) => position,
            None => {
                return Ok(None);
            },
        };
        let mut shown: Vec<JournalEntryWithAccount> = Vec::new();
        let mut debits: Vec<Money> = Vec::new();
        let mut credits: Vec<Money> = Vec::new();
        let mut i: usize = 0;
        assert(self.entries@.take(0) =~= Seq::<JournalEntry>::empty());
        while i < self.entries.len()
            invariant
                i <= self.entries.len(),
                shown@ == shown_entries(self.entries@.take(i as int), self.accounts@, id),
                debits@ == shown_column(shown@, Side::Debit),
                credits@ == shown_column(shown@, Side::Credit),
            decreases self.entries.len() - i,
        {
            let entry = &self.entries[i];
            proof {
                assert(self.entries@.take(i + 1).drop_last() =~= self.entries@.take(i as int));
                assert(self.entries@.take(i + 1).last() == *entry);
            }
            if entry.transaction_id == id {
                if let Some(at) = self.account_position(entry.account_id) {
                    let account = &self.accounts[at];
                    shown.push(
                        JournalEntryWithAccount {
                            id: entry.id,
                            transaction_id: entry.transaction_id,
                            account_id: entry.account_id,
                            account_code: account.code.clone(),
                            account_name: account.name.clone(),
                            debit_amount: entry.debit_amount,
                            credit_amount: entry.credit_amount,
                            description: clone_optional_text(&entry.description),
                            created_at: entry.created_at,
                        },
                    );
                    debits.push(entry.debit_amount);
                    credits.push(entry.credit_amount);
                    proof {
                        assert(debits@ =~= shown_column(shown@, Side::Debit));
                        assert(credits@ =~= shown_column(shown@, Side::Credit));
                    }
                }
            }
            i = i + 1;
        }
        assert(self.entries@.take(i as int) =~= self.entries@);
        let total_debits = match total(&debits) {
            Some(t) => t,
            None => {
                return Err(LedgerError::AmountOutOfRange);
            },
        };
        let total_credits = match total(&credits) {
            Some(t) => t,
            None => {
                return Err(LedgerError::AmountOutOfRange);
            },
        };
        Ok(
            Some(
                TransactionWithEntries {
                    transaction: self.transactions[position].clone(),
                    journal_entries: shown,
                    total_debits,
                    total_credits,
                },
            ),
        )
    }

    /// The transactions that pass the filter, newest first, each with its
    /// entries and totals as `get_transaction` shows it. The offset of the
    /// filter says how many passing transactions are passed over, its limit
    /// how many are shown at most.
    pub fn list_transactions(&self, filter: TransactionFilter) -> (r: Result<
        Vec<TransactionWithEntries>,
        LedgerError,
    >)
        requires
            self.wf(),
        ensures
            match r {
                Ok(views) => {
                    &&& views@.len() == listed(self.transactions(), filter).len()
                    &&& forall|i: int|
                        0 <= i < views@.len() ==> self.shows(
                            listed(self.transactions(), filter)[i].id,
                            #[trigger] views@[i],
                        )
                },
                Err(e) => e == LedgerError::AmountOutOfRange && exists|i: int|
                    0 <= i < listed(self.transactions(), filter).len() && !self.totals_fit(
                        (#[trigger] listed(self.transactions(), filter)[i]).id,
                    ),
            },
            self.entries_resolved() ==> r is Ok,
    {
        let mut ordered: Vec<Transaction> = Vec::new();
        let mut i: usize = 0;
        while i < self.transactions.len()
            invariant
                i <= self.transactions.len(),
                ordered@ == self.transactions@.take(i as int),
            decreases self.transactions.len() - i,
        {
            ordered.push(self.transactions[i].clone());
            assert(self.transactions@.take(i + 1) =~= self.transactions@.take(i as int).push(
                self.transactions@[i as int],
            ));
            i = i + 1;
        }
        assert(self.transactions@.take(i as int) =~= self.transactions@);
        sort::<Transaction, NewestFirst>(&mut ordered);
        let mut chosen: Vec<i64> = Vec::new();
        let mut j: usize = 0;
        assert(ordered@.take(0) =~= Seq::<Transaction>::empty());
        while j < ordered.len()
            invariant
                j <= ordered.len(),
                chosen@.len() == passing(ordered@.take(j as int), filter).len(),
                forall|k: int|
                    0 <= k < chosen@.len() ==> #[trigger] chosen@[k] == passing(
                        ordered@.take(j as int),
                        filter,
                    )[k].id,
            decreases ordered.len() - j,
        {
            proof {
                assert(ordered@.take(j + 1).drop_last() =~= ordered@.take(j as int));
                assert(ordered@.take(j + 1).last() == ordered@[j as int]);
            }
            if check_filter(&ordered[j], &filter) {
                chosen.push(ordered[j].id);
            }
            j = j + 1;
        }
        assert(ordered@.take(j as int) =~= ordered@);
        let ghost passed = passing(ordered@, filter);
        let ghost shown = listed(self.transactions(), filter);
        let count: usize = chosen.len();
        let start: usize = match filter.offset {
            Some(offset) => if offset > 0 && (offset as u64) < (count as u64) {
                offset as usize
            } else if offset > 0 {
                count
            } else {
                0
            },
            None => 0,
        };
        let end: usize = match filter.limit {
            Some(limit) => if limit >= 0 && (limit as u64) < ((count - start) as u64) {
                start + limit as usize
            } else {
                count
            },
            None => count,
        };
        proof {
            lemma_listed_members(self.transactions@, self.next_transaction_id, filter);
            assert(shown.len() == end - start);
            assert forall|k: int| 0 <= k < shown.len() implies #[trigger] shown[k] == passed[start
                + k] by {}
        }
        let mut views: Vec<TransactionWithEntries> = Vec::new();
        let mut k: usize = start;
        while k < end
            invariant
                start <= k <= end <= count,
                self.wf(),
                count == chosen@.len(),
                shown == listed(self.transactions(), filter),
                shown.len() == end - start,
                forall|m: int| 0 <= m < shown.len() ==> (#[trigger] shown[m]).id == chosen@[start + m],
                forall|m: int|
                    0 <= m < shown.len() ==> find_transaction(
                        self.transactions(),
                        (#[trigger] shown[m]).id,
                    ) == Some(shown[m]),
                views@.len() == k - start,
                forall|m: int| 0 <= m < views@.len() ==> self.shows(shown[m].id, #[trigger] views@[m]),
            decreases end - k,
        {
            assert(shown[k - start].id == chosen@[k as int]);
            assert(self.entries_resolved() ==> self.resolved(chosen@[k as int]));
            match self.get_transaction(chosen[k]) {
                Ok(Some(view)) => {
                    views.push(view);
                },
                Ok(None) => {
                    assert(false);
                },
                Err(e) => {
                    return Err(e);
                },
            }
            k = k + 1;
        }
        Ok(views)
    }

    /// The summary of all accounts, added in the order of their codes.
    pub fn get_account_summary(&self) -> (r: Result<AccountSummary, LedgerError>)
        ensures
            match summary_of(sorted::<Account, AccountsByCode>(self.accounts())) {
                Some(summary) => r == Ok::<AccountSummary, LedgerError>(summary),
                None => r == Err::<AccountSummary, LedgerError>(LedgerError::AmountOutOfRange),
            },
    {
        let accounts = self.list_accounts();
        let mut summary = AccountSummary::new();
        let mut i: usize = 0;
        assert(accounts@.take(0) =~= Seq::<Account>::empty());
        while i < accounts.len()
            invariant
                i <= accounts.len(),
                accounts@ == sorted::<Account, AccountsByCode>(self.accounts()),
                summary_of(accounts@.take(i as int)) == Some(summary),
            decreases accounts.len() - i,
        {
            proof {
                assert(accounts@.take(i + 1).drop_last() =~= accounts@.take(i as int));
                assert(accounts@.take(i + 1).last() == accounts@[i as int]);
            }
            match summary.add_account(&accounts[i]) {
                Ok(()) => {},
                Err(_) => {
                    proof {
                        lemma_summary_none_extends(accounts@, i + 1);
                    }
                    return Err(LedgerError::AmountOutOfRange);
                },
            }
            i = i + 1;
        }
        assert(accounts@.take(i as int) =~= accounts@);
        Ok(summary)
    }

    /// The amounts on one side of the selected entries, in order.
    fn column(&self, selector: Selector, side: Side) -> (r: Vec<Money>)
        ensures
            r@ == selected_amounts(self.entries(), selector, side),
    {
        let mut amounts: Vec<Money> = Vec::new();
        let mut i: usize = 0;
        assert(self.entries@.take(0) =~= Seq::<JournalEntry>::empty());
        while i < self.entries.len()
            invariant
                i <= self.entries.len(),
                amounts@ == selected_amounts(self.entries@.take(i as int), selector, side),
            decreases self.entries.len() - i,
        {
            proof {
                assert(self.entries@.take(i + 1).drop_last() =~= self.entries@.take(i as int));
                assert(self.entries@.take(i + 1).last() == self.entries@[i as int]);
            }
            if selector.includes(&self.entries[i]) {
                amounts.push(
                    match side {
                        Side::Debit => self.entries[i].debit_amount,
                        Side::Credit => self.entries[i].credit_amount,
                    },
                );
            }
            i = i + 1;
        }
        assert(self.entries@.take(i as int) =~= self.entries@);
        amounts
    }

    /// The line of an account in the trial balance.
    fn line_of(&self, account: &Account) -> (r: Option<TrialBalanceEntry>)
        ensures
            r == balance_line(*account, self.entries()),
    {
        let on_account = Selector::OnAccount(account.id);
        let debits = match total(&self.column(on_account, Side::Debit)) {
            Some(debits) => debits,
            None => {
                return None;
            },
        };
        let credits = match total(&self.column(on_account, Side::Credit)) {
            Some(credits) => credits,
            None => {
                return None;
            },
        };
        let net = match debits.checked_sub(credits) {
            Some(net) => net,
            None => {
                return None;
            },
        };
        let (debit_balance, credit_balance) = if !net.is_negative() {
            (net, Money::zero())
        } else {
            (Money::zero(), net.neg())
        };
        Some(
            TrialBalanceEntry {
                account_id: account.id,
                account_code: account.code.clone(),
                account_name: account.name.clone(),
                account_type: account.account_type,
                debit_balance,
                credit_balance,
            },
        )
    }

    /// Whether every journal entry is on an account that the books hold:
    /// so it is until an account with entries is deleted.
    pub open spec fn entries_resolved(&self) -> bool {
        all_resolved(self.accounts(), self.entries())
    }

    /// The trial balance: for every account the net of all its entries, in
    /// the debit or in the credit column; the totals of the two columns; and
    /// whether they are the same number. The lines are ordered by account
    /// type and, within a type, by code.
    ///
    /// As long as every journal entry is on an account that the books hold,
    /// the two totals are equal.
    pub fn get_trial_balance(&self) -> (r: Result<TrialBalance, LedgerError>)
        requires
            self.wf(),
        ensures
            match r {
                Ok(report) => {
                    &&& is_trial_balance(self.accounts(), self.entries(), report)
                    &&& self.entries_resolved() ==> report.is_balanced && report.total_debits@
                        == report.total_credits@
                },
                Err(e) => e == LedgerError::AmountOutOfRange && !trial_balance_fits(
                    self.accounts(),
                    self.entries(),
                ),
            },
    {
        let mut report = TrialBalance::new();
        let mut i: usize = 0;
        assert(self.accounts@.take(0) =~= Seq::<Account>::empty());
        assert(line_column(Seq::<TrialBalanceEntry>::empty(), Side::Debit) =~= Seq::<
            Money,
        >::empty());
        assert(line_column(Seq::<TrialBalanceEntry>::empty(), Side::Credit) =~= Seq::<
            Money,
        >::empty());
        while i < self.accounts.len()
            invariant
                i <= self.accounts.len(),
                balance_lines(self.accounts@.take(i as int), self.entries@) == Some(
                    report.entries@,
                ),
                checked_total(line_column(report.entries@, Side::Debit)) == Some(
                    report.total_debits,
                ),
                checked_total(line_column(report.entries@, Side::Credit)) == Some(
                    report.total_credits,
                ),
                report.is_balanced == (report.total_debits@ == report.total_credits@),
            decreases self.accounts.len() - i,
        {
            proof {
                assert(self.accounts@.take(i + 1).drop_last() =~= self.accounts@.take(i as int));
                assert(self.accounts@.take(i + 1).last() == self.accounts@[i as int]);
            }
            let line = match self.line_of(&self.accounts[i]) {
                Some(line) => line,
                None => {
                    proof {
                        lemma_lines_none_extends(self.accounts@, self.entries@, i + 1);
                    }
                    return Err(LedgerError::AmountOutOfRange);
                },
            };
            proof {
                let before = report.entries@;
                let after = before.push(line);
                assert(line_column(after, Side::Debit).drop_last() =~= line_column(
                    before,
                    Side::Debit,
                ));
                assert(line_column(after, Side::Credit).drop_last() =~= line_column(
                    before,
                    Side::Credit,
                ));
            }
            match report.add_entry(line) {
                Ok(()) => {},
                Err(_) => {
                    proof {
                        lemma_lines_totals_none_extend(
                            self.accounts@,
                            self.entries@,
                            i + 1,
                        );
                    }
                    return Err(LedgerError::AmountOutOfRange);
                },
            }
            i = i + 1;
        }
        assert(self.accounts@.take(i as int) =~= self.accounts@);
        report.sort_by_type_and_code();
        proof {
            if self.entries_resolved() {
                lemma_trial_balance_closes(
                    self.accounts@,
                    self.transactions@,
                    self.entries@,
                    self.next_account_id,
                    self.next_transaction_id,
                    self.next_entry_id,
                    report,
                );
            }
        }
        Ok(report)
    }

    /// Whether an account that was stored before can be taken into the
    /// books as it is: its id lies beyond those given out, its code is new
    /// to the books, and it is not its own parent.
    pub open spec fn can_restore_account(&self, account: Account) -> bool {
        &&& self.next_account_id() <= account.id < i64::MAX
        &&& find_account_by_code(self.accounts(), account.code@) is None
        &&& account.parent_id != Some(account.id)
    }

    /// Takes an account that was stored before into the books, under the
    /// id it has. An account that does not fit leaves the books as they
    /// were.
    pub fn restore_account(&mut self, account: Account) -> (r: Result<(), LedgerError>)
        requires
            old(self).wf(),
        ensures
            final(self).wf(),
            final(self).transactions() == old(self).transactions(),
            final(self).entries() == old(self).entries(),
            final(self).next_transaction_id() == old(self).next_transaction_id(),
            final(self).next_entry_id() == old(self).next_entry_id(),
            if old(self).can_restore_account(account) {
                &&& r is Ok
                &&& final(self).accounts() == old(self).accounts().push(account)
                &&& final(self).next_account_id() == account.id + 1
            } else {
                &&& r == Err::<(), LedgerError>(LedgerError::InconsistentRecord)
                &&& final(self).accounts() == old(self).accounts()
                &&& final(self).next_account_id() == old(self).next_account_id()
            },
    {
        if account.id < self.next_account_id || account.id == i64::MAX {
            return Err(LedgerError::InconsistentRecord);
        }
        if self.get_account_by_code(account.code.as_str()).is_some() {
            return Err(LedgerError::InconsistentRecord);
        }
        if let Some(parent) = account.parent_id {
            if parent == account.id {
                return Err(LedgerError::InconsistentRecord);
            }
        }
        let ghost before = self.accounts@;
        let ghost added = account;
        let balance = account.balance;
        proof {
            lemma_find_account_by_code(before, account.code@);
            use_type_invariant(balance);
        }
        self.next_account_id = account.id + 1;
        self.accounts.push(account);
        proof {
            let after = self.accounts@;
            assert forall|i: int| 0 <= i < after.len() implies #[trigger] after[i] == (if i
                < before.len() {
                before[i]
            } else {
                added
            }) by {}
            assert(accounts_wf(after, self.next_account_id));
        }
        Ok(())
    }

    /// Whether a transaction that was stored before can be taken into the
    /// books with these journal entries: the ids of header and entries lie
    /// beyond those given out, the ids of the entries ascending; every
    /// entry is one-sided and of this transaction; and the debits and the
    /// credits can be added up, to the same number.
    pub open spec fn can_restore_transaction(
        &self,
        transaction: Transaction,
        rows: Seq<JournalEntry>,
    ) -> bool {
        &&& self.next_transaction_id() <= transaction.id < i64::MAX
        &&& forall|k: int|
            0 <= k < rows.len() ==> self.next_entry_id() <= (#[trigger] rows[k]).id < i64::MAX
                && rows[k].transaction_id == transaction.id && one_sided(rows[k])
        &&& forall|i: int, j: int|
            0 <= i < j < rows.len() ==> (#[trigger] rows[i]).id < (#[trigger] rows[j]).id
        &&& checked_total(side_column(rows, Side::Debit)) is Some
        &&& checked_total(side_column(rows, Side::Credit)) is Some
        &&& checked_total(side_column(rows, Side::Debit))->0@ == checked_total(
            side_column(rows, Side::Credit),
        )->0@
    }

    /// The id that the next journal entry gets once `rows` are stored.
    pub open spec fn next_entry_id_after(&self, rows: Seq<JournalEntry>) -> int {
        if rows.len() == 0 {
            self.next_entry_id() as int
        } else {
            rows.last().id + 1
        }
    }

    /// Takes a transaction that was stored before into the books, with
    /// its journal entries, under the ids they have. A transaction that
    /// does not fit, or does not balance, leaves the books as they were.
    pub fn restore_transaction(&mut self, transaction: Transaction, entries: Vec<JournalEntry>) -> (r:
        Result<(), LedgerError>)
        requires
            old(self).wf(),
        ensures
            final(self).wf(),
            final(self).accounts() == old(self).accounts(),
            final(self).next_account_id() == old(self).next_account_id(),
            if old(self).can_restore_transaction(transaction, entries@) {
                &&& r is Ok
                &&& final(self).transactions() == old(self).transactions().push(transaction)
                &&& final(self).entries() == old(self).entries() + entries@
                &&& final(self).next_transaction_id() == transaction.id + 1
                &&& final(self).next_entry_id() == old(self).next_entry_id_after(entries@)
            } else {
                &&& r == Err::<(), LedgerError>(LedgerError::InconsistentRecord)
                &&& *final(self) == *old(self)
            },
    {
        if transaction.id < self.next_transaction_id || transaction.id == i64::MAX {
            return Err(LedgerError::InconsistentRecord);
        }
        let mut debits: Vec<Money> = Vec::new();
        let mut credits: Vec<Money> = Vec::new();
        let mut limit: i64 = self.next_entry_id;
        let mut k: usize = 0;
        let ghost start = *self;
        while k < entries.len()
            invariant
                k <= entries.len(),
                *self == start,
                start.wf(),
                start.next_transaction_id() <= transaction.id < i64::MAX,
                self.next_entry_id <= limit,
                limit == (if k == 0 {
                    self.next_entry_id as int
                } else {
                    entries@[k - 1].id + 1
                }),
                debits@.len() == k,
                credits@.len() == k,
                forall|j: int| 0 <= j < k ==> debits@[j] == (#[trigger] entries@[j]).debit_amount,
                forall|j: int| 0 <= j < k ==> credits@[j] == (#[trigger] entries@[j]).credit_amount,
                forall|j: int|
                    0 <= j < k ==> (#[trigger] entries@[j]).wf() && one_sided(entries@[j])
                        && entries@[j].transaction_id == transaction.id && self.next_entry_id
                        <= entries@[j].id < limit,
                forall|i: int, j: int|
                    0 <= i < j < k ==> (#[trigger] entries@[i]).id < (#[trigger] entries@[j]).id,
            decreases entries.len() - k,
        {
            let entry = &entries[k];
            let debit = entry.debit_amount;
            let credit = entry.credit_amount;
            proof {
                use_type_invariant(debit);
                use_type_invariant(credit);
            }
            let sided = (debit.is_positive() && credit.is_zero()) || (debit.is_zero()
                && credit.is_positive());
            if entry.id < limit || entry.id == i64::MAX || entry.transaction_id != transaction.id
                || !sided {
                proof {
                    if k > 0 && entry.id < limit && entry.id >= self.next_entry_id {
                        assert(entries@[k - 1].id >= entries@[k as int].id);
                    }
                }
                return Err(LedgerError::InconsistentRecord);
            }
            debits.push(debit);
            credits.push(credit);
            limit = entry.id + 1;
            k = k + 1;
        }
        assert(debits@ =~= side_column(entries@, Side::Debit));
        assert(credits@ =~= side_column(entries@, Side::Credit));
        let total_debits = match total(&debits) {
            Some(t) => t,
            None => {
                return Err(LedgerError::InconsistentRecord);
            },
        };
        let total_credits = match total(&credits) {
            Some(t) => t,
            None => {
                return Err(LedgerError::InconsistentRecord);
            },
        };
        if total_debits != total_credits {
            return Err(LedgerError::InconsistentRecord);
        }
        let ghost before = *self;
        let ghost rows = entries@;
        let ghost head = transaction;
        let mut incoming = entries;
        proof {
            assert(storable(rows, head.id, before.next_entry_id, limit));
            lemma_storing_keeps_wf(
                before.transactions@,
                before.entries@,
                before.next_transaction_id,
                before.next_entry_id,
                head,
                rows,
                limit,
            );
        }
        self.next_transaction_id = transaction.id + 1;
        self.next_entry_id = limit;
        self.transactions.push(transaction);
        self.entries.append(&mut incoming);
        Ok(())
    }
}

} // verus!
