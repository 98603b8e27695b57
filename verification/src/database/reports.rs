//! What the reports of the books say, and why the trial balance closes.

use crate::database::sums::{
    distinct, grouped_units, lemma_grouped_total, lemma_selected_total, lemma_selected_wf,
    Grouping,
};
use crate::database::{
    accounts_wf, all_balanced, entries_wf, find_account, find_transaction, lemma_find_account,
    lemma_find_transaction, selected_amounts, sum_units, transactions_wf, Selector, Side,
};
use crate::models::account::{Account, AccountSummary};
use crate::models::journal_entry::{ByTypeAndCode, JournalEntry, TrialBalance, TrialBalanceEntry};
use crate::models::transaction::Transaction;
use crate::money::{
    all_wf, checked_total, lemma_checked_total_exact, lemma_difference_exact, total_units, Money,
};
use crate::sort::sorted;
use vstd::prelude::*;

verus! {

/// The summary of no accounts.
pub open spec fn empty_summary() -> AccountSummary {
    AccountSummary {
        total_assets: Money::of(0, 0),
        total_liabilities: Money::of(0, 0),
        total_equity: Money::of(0, 0),
        total_revenue: Money::of(0, 0),
        total_expenses: Money::of(0, 0),
        net_income: Money::of(0, 0),
    }
}

/// The summary that adding the accounts one after the other arrives at:
/// nothing as soon as one of them cannot be added.
pub open spec fn summary_of(accounts: Seq<Account>) -> Option<AccountSummary>
    decreases accounts.len(),
{
    if accounts.len() == 0 {
        Some(empty_summary())
    } else {
        match summary_of(accounts.drop_last()) {
            Some(summary) => summary.with_account(accounts.last()),
            None => None,
        }
    }
}

/// The line of an account in the trial balance. The debits and the credits
/// of all its entries are added up; their difference, the net position,
/// stands in the debit column where it is not negative, and with its sign
/// reversed in the credit column where it is. Nothing where one of the
/// calculations is refused.
pub open spec fn balance_line(account: Account, entries: Seq<JournalEntry>) -> Option<
    TrialBalanceEntry,
> {
    let on_account = Selector::OnAccount(account.id);
    match (
        checked_total(selected_amounts(entries, on_account, Side::Debit)),
        checked_total(selected_amounts(entries, on_account, Side::Credit)),
    ) {
        (Some(debits), Some(credits)) => match debits.difference(credits) {
            Some(net) => Some(
                TrialBalanceEntry {
                    account_id: account.id,
                    account_code: account.code,
                    account_name: account.name,
                    account_type: account.account_type,
                    debit_balance: if net@ >= 0 {
                        net
                    } else {
                        Money::of(0, 0)
                    },
                    credit_balance: if net@ >= 0 {
                        Money::of(0, 0)
                    } else {
                        net.negated()
                    },
                },
            ),
            None => None,
        },
        _ => None,
    }
}

/// The lines of the accounts, in the order of the accounts: nothing as soon
/// as one line cannot be formed.
pub open spec fn balance_lines(accounts: Seq<Account>, entries: Seq<JournalEntry>) -> Option<
    Seq<TrialBalanceEntry>,
>
    decreases accounts.len(),
{
    if accounts.len() == 0 {
        Some(Seq::empty())
    } else {
        match (
            balance_lines(accounts.drop_last(), entries),
            balance_line(accounts.last(), entries),
        ) {
            (Some(lines), Some(line)) => Some(lines.push(line)),
            _ => None,
        }
    }
}

/// One column of the lines, from top to bottom.
pub open spec fn line_column(lines: Seq<TrialBalanceEntry>, side: Side) -> Seq<Money> {
    Seq::new(
        lines.len(),
        |i: int|
            match side {
                Side::Debit => lines[i].debit_balance,
                Side::Credit => lines[i].credit_balance,
            },
    )
}

/// Whether the trial balance of the accounts and entries can be formed:
/// every line can, and the two columns can be added up.
pub open spec fn trial_balance_fits(accounts: Seq<Account>, entries: Seq<JournalEntry>) -> bool {
    match balance_lines(accounts, entries) {
        Some(lines) => checked_total(line_column(lines, Side::Debit)) is Some && checked_total(
            line_column(lines, Side::Credit),
        ) is Some,
        None => false,
    }
}

/// Whether `report` is the trial balance of the accounts and entries: one
/// line for each account, ordered by account type and then by code; the
/// totals of the two columns; and whether the totals are the same number.
pub open spec fn is_trial_balance(
    accounts: Seq<Account>,
    entries: Seq<JournalEntry>,
    report: TrialBalance,
) -> bool {
    match balance_lines(accounts, entries) {
        Some(lines) => {
            &&& report.entries@ == sorted::<TrialBalanceEntry, ByTypeAndCode>(lines)
            &&& checked_total(line_column(lines, Side::Debit)) == Some(report.total_debits)
            &&& checked_total(line_column(lines, Side::Credit)) == Some(report.total_credits)
            &&& report.is_balanced == (report.total_debits@ == report.total_credits@)
        },
        None => false,
    }
}

/// Whether every journal entry is on an account that the books hold.
pub open spec fn all_resolved(accounts: Seq<Account>, entries: Seq<JournalEntry>) -> bool {
    forall|i: int|
        0 <= i < entries.len() ==> find_account(accounts, (#[trigger] entries[i]).account_id)
            is Some
}

/// The ids of the accounts, in order.
pub open spec fn account_ids(accounts: Seq<Account>) -> Seq<i64> {
    Seq::new(accounts.len(), |i: int| accounts[i].id)
}

/// The ids of the transactions, in order.
pub open spec fn transaction_ids(transactions: Seq<Transaction>) -> Seq<i64> {
    Seq::new(transactions.len(), |i: int| transactions[i].id)
}

/// A line holds the net position of its account: its debit column less its
/// credit column is the debits less the credits of the account's entries.
pub proof fn lemma_line_net(account: Account, entries: Seq<JournalEntry>)
    requires
        forall|i: int| 0 <= i < entries.len() ==> (#[trigger] entries[i]).wf(),
        balance_line(account, entries) is Some,
    ensures
        balance_line(account, entries)->0.debit_balance@ - balance_line(
            account,
            entries,
        )->0.credit_balance@ == sum_units(entries, Selector::OnAccount(account.id), Side::Debit)
            - sum_units(entries, Selector::OnAccount(account.id), Side::Credit),
        balance_line(account, entries)->0.debit_balance.wf(),
        balance_line(account, entries)->0.credit_balance.wf(),
        balance_line(account, entries)->0.debit_balance@ >= 0,
        balance_line(account, entries)->0.credit_balance@ >= 0,
{
    let on_account = Selector::OnAccount(account.id);
    let debit_amounts = selected_amounts(entries, on_account, Side::Debit);
    let credit_amounts = selected_amounts(entries, on_account, Side::Credit);
    lemma_selected_wf(entries, on_account, Side::Debit);
    lemma_selected_wf(entries, on_account, Side::Credit);
    lemma_selected_total(entries, on_account, Side::Debit);
    lemma_selected_total(entries, on_account, Side::Credit);
    lemma_checked_total_exact(debit_amounts);
    lemma_checked_total_exact(credit_amounts);
    let debits = checked_total(debit_amounts)->0;
    let credits = checked_total(credit_amounts)->0;
    lemma_difference_exact(debits, credits);
    let net = debits.difference(credits)->0;
    net.lemma_negated();
    Money::lemma_zero();
}

/// The columns of the lines add up to the debits and credits of the
/// accounts' entries: the total of the debit column less the total of the
/// credit column is the sum of the accounts' net positions.
pub proof fn lemma_lines_net(accounts: Seq<Account>, entries: Seq<JournalEntry>)
    requires
        forall|i: int| 0 <= i < entries.len() ==> (#[trigger] entries[i]).wf(),
        balance_lines(accounts, entries) is Some,
    ensures
        balance_lines(accounts, entries)->0.len() == accounts.len(),
        all_wf(line_column(balance_lines(accounts, entries)->0, Side::Debit)),
        all_wf(line_column(balance_lines(accounts, entries)->0, Side::Credit)),
        total_units(line_column(balance_lines(accounts, entries)->0, Side::Debit)) - total_units(
            line_column(balance_lines(accounts, entries)->0, Side::Credit),
        ) == grouped_units(entries, Grouping::ByAccount, account_ids(accounts), Side::Debit)
            - grouped_units(entries, Grouping::ByAccount, account_ids(accounts), Side::Credit),
    decreases accounts.len(),
{
    if accounts.len() > 0 {
        let front = accounts.drop_last();
        lemma_lines_net(front, entries);
        lemma_line_net(accounts.last(), entries);
        let lines = balance_lines(accounts, entries)->0;
        let before = balance_lines(front, entries)->0;
        assert(line_column(lines, Side::Debit).drop_last() =~= line_column(before, Side::Debit));
        assert(line_column(lines, Side::Credit).drop_last() =~= line_column(
            before,
            Side::Credit,
        ));
        assert(account_ids(accounts).drop_last() =~= account_ids(front));
        assert forall|i: int| 0 <= i < lines.len() implies (#[trigger] line_column(
            lines,
            Side::Debit,
        )[i]).wf() by {
            if i < before.len() {
                assert(line_column(lines, Side::Debit)[i] == line_column(before, Side::Debit)[i]);
            }
        }
        assert forall|i: int| 0 <= i < lines.len() implies (#[trigger] line_column(
            lines,
            Side::Credit,
        )[i]).wf() by {
            if i < before.len() {
                assert(line_column(lines, Side::Credit)[i] == line_column(
                    before,
                    Side::Credit,
                )[i]);
            }
        }
    } else {
        assert(account_ids(accounts) =~= Seq::<i64>::empty());
    }
}

/// Where every transaction balances, the groups of entries by transaction
/// have the same debits as credits, added up over all transactions.
pub proof fn lemma_grouped_balanced(
    entries: Seq<JournalEntry>,
    transactions: Seq<Transaction>,
    k: int,
)
    requires
        all_balanced(entries, transactions),
        0 <= k <= transactions.len(),
    ensures
        grouped_units(
            entries,
            Grouping::ByTransaction,
            transaction_ids(transactions).take(k),
            Side::Debit,
        ) == grouped_units(
            entries,
            Grouping::ByTransaction,
            transaction_ids(transactions).take(k),
            Side::Credit,
        ),
    decreases k,
{
    if k > 0 {
        lemma_grouped_balanced(entries, transactions, k - 1);
        let keys = transaction_ids(transactions).take(k);
        assert(keys.drop_last() =~= transaction_ids(transactions).take(k - 1));
        assert(keys.last() == transactions[k - 1].id);
    }
}

/// In consistent books all debits add up to all credits; and where every
/// entry is on an account that the books hold, so do the net positions of
/// the accounts.
pub proof fn lemma_books_balance(
    accounts: Seq<Account>,
    transactions: Seq<Transaction>,
    entries: Seq<JournalEntry>,
    next_account_id: i64,
    next_transaction_id: i64,
    next_entry_id: i64,
)
    requires
        accounts_wf(accounts, next_account_id),
        transactions_wf(transactions, next_transaction_id),
        entries_wf(entries, next_entry_id, transactions),
        all_balanced(entries, transactions),
    ensures
        sum_units(entries, Selector::All, Side::Debit) == sum_units(
            entries,
            Selector::All,
            Side::Credit,
        ),
        all_resolved(accounts, entries) ==> grouped_units(
            entries,
            Grouping::ByAccount,
            account_ids(accounts),
            Side::Debit,
        ) == grouped_units(entries, Grouping::ByAccount, account_ids(accounts), Side::Credit),
{
    let heads = transaction_ids(transactions);
    assert(distinct(heads)) by {
        assert forall|i: int, j: int| 0 <= i < j < heads.len() implies heads[i] != heads[j] by {
            assert(transactions[i].id < transactions[j].id);
        }
    }
    assert forall|i: int| 0 <= i < entries.len() implies heads.contains(
        Grouping::ByTransaction.key_of(#[trigger] entries[i]),
    ) by {
        lemma_find_transaction(transactions, entries[i].transaction_id);
        let found = find_transaction(transactions, entries[i].transaction_id)->0;
        let j = choose|j: int| 0 <= j < transactions.len() && #[trigger] transactions[j] == found;
        assert(heads[j] == entries[i].transaction_id);
    }
    lemma_grouped_total(entries, Grouping::ByTransaction, heads, Side::Debit);
    lemma_grouped_total(entries, Grouping::ByTransaction, heads, Side::Credit);
    lemma_grouped_balanced(entries, transactions, transactions.len() as int);
    assert(heads.take(transactions.len() as int) =~= heads);
    if all_resolved(accounts, entries) {
        let ids = account_ids(accounts);
        assert(distinct(ids)) by {
            assert forall|i: int, j: int| 0 <= i < j < ids.len() implies ids[i] != ids[j] by {
                assert(accounts[i].id < accounts[j].id);
            }
        }
        assert forall|i: int| 0 <= i < entries.len() implies ids.contains(
            Grouping::ByAccount.key_of(#[trigger] entries[i]),
        ) by {
            lemma_find_account(accounts, entries[i].account_id);
            let found = find_account(accounts, entries[i].account_id)->0;
            let j = choose|j: int| 0 <= j < accounts.len() && #[trigger] accounts[j] == found;
            assert(ids[j] == entries[i].account_id);
        }
        lemma_grouped_total(entries, Grouping::ByAccount, ids, Side::Debit);
        lemma_grouped_total(entries, Grouping::ByAccount, ids, Side::Credit);
    }
}

/// The trial balance closes: in consistent books where every journal entry
/// is on an account that the books hold, the total of the debit column is
/// the total of the credit column, and the report says that it balances.
pub proof fn lemma_trial_balance_closes(
    accounts: Seq<Account>,
    transactions: Seq<Transaction>,
    entries: Seq<JournalEntry>,
    next_account_id: i64,
    next_transaction_id: i64,
    next_entry_id: i64,
    report: TrialBalance,
)
    requires
        accounts_wf(accounts, next_account_id),
        transactions_wf(transactions, next_transaction_id),
        entries_wf(entries, next_entry_id, transactions),
        all_balanced(entries, transactions),
        all_resolved(accounts, entries),
        is_trial_balance(accounts, entries, report),
    ensures
        report.total_debits@ == report.total_credits@,
        report.is_balanced,
{
    let lines = balance_lines(accounts, entries)->0;
    lemma_lines_net(accounts, entries);
    lemma_checked_total_exact(line_column(lines, Side::Debit));
    lemma_checked_total_exact(line_column(lines, Side::Credit));
    lemma_books_balance(
        accounts,
        transactions,
        entries,
        next_account_id,
        next_transaction_id,
        next_entry_id,
    );
}

/// Once adding accounts to the summary has been refused, it stays refused.
pub proof fn lemma_summary_none_extends(accounts: Seq<Account>, k: int)
    requires
        0 <= k <= accounts.len(),
        summary_of(accounts.take(k)) is None,
    ensures
        summary_of(accounts) is None,
    decreases accounts.len() - k,
{
    if k < accounts.len() {
        assert(accounts.take(k + 1).drop_last() =~= accounts.take(k));
        lemma_summary_none_extends(accounts, k + 1);
    } else {
        assert(accounts.take(k) =~= accounts);
    }
}

/// Once a line cannot be formed, the lines of more accounts cannot either.
pub proof fn lemma_lines_none_extends(accounts: Seq<Account>, entries: Seq<JournalEntry>, k: int)
    requires
        0 <= k <= accounts.len(),
        balance_lines(accounts.take(k), entries) is None,
    ensures
        balance_lines(accounts, entries) is None,
    decreases accounts.len() - k,
{
    if k < accounts.len() {
        assert(accounts.take(k + 1).drop_last() =~= accounts.take(k));
        lemma_lines_none_extends(accounts, entries, k + 1);
    } else {
        assert(accounts.take(k) =~= accounts);
    }
}

/// The lines of the first `k` accounts are the first `k` lines.
pub proof fn lemma_lines_prefix(accounts: Seq<Account>, entries: Seq<JournalEntry>, k: int)
    requires
        0 <= k <= accounts.len(),
        balance_lines(accounts, entries) is Some,
    ensures
        balance_lines(accounts.take(k), entries) == Some(
            balance_lines(accounts, entries)->0.take(k),
        ),
        balance_lines(accounts, entries)->0.len() == accounts.len(),
    decreases accounts.len() - k,
{
    let lines = balance_lines(accounts, entries)->0;
    if k == accounts.len() {
        assert(accounts.take(k) =~= accounts);
        lemma_lines_length(accounts, entries);
        assert(lines.take(k) =~= lines);
    } else {
        lemma_lines_prefix(accounts, entries, k + 1);
        assert(accounts.take(k + 1).drop_last() =~= accounts.take(k));
        assert(lines.take(k + 1).drop_last() =~= lines.take(k));
    }
}

/// There is one line for each account.
pub proof fn lemma_lines_length(accounts: Seq<Account>, entries: Seq<JournalEntry>)
    requires
        balance_lines(accounts, entries) is Some,
    ensures
        balance_lines(accounts, entries)->0.len() == accounts.len(),
    decreases accounts.len(),
{
    if accounts.len() > 0 {
        lemma_lines_length(accounts.drop_last(), entries);
    }
}

/// Where a column of the first `k` lines cannot be added up, the trial
/// balance cannot be formed.
pub proof fn lemma_lines_totals_none_extend(
    accounts: Seq<Account>,
    entries: Seq<JournalEntry>,
    k: int,
)
    requires
        0 <= k <= accounts.len(),
        balance_lines(accounts.take(k), entries) is Some,
        !trial_balance_fits(accounts.take(k), entries),
    ensures
        !trial_balance_fits(accounts, entries),
{
    if balance_lines(accounts, entries) is Some {
        let lines = balance_lines(accounts, entries)->0;
        lemma_lines_prefix(accounts, entries, k);
        let first = lines.take(k);
        assert(line_column(lines, Side::Debit).take(k) =~= line_column(first, Side::Debit));
        assert(line_column(lines, Side::Credit).take(k) =~= line_column(first, Side::Credit));
        if checked_total(line_column(first, Side::Debit)) is None {
            crate::money::lemma_checked_total_none_extends(line_column(lines, Side::Debit), k);
        } else {
            crate::money::lemma_checked_total_none_extends(line_column(lines, Side::Credit), k);
        }
    }
}

} // verus!
