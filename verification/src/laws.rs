//! What holds of the books whatever is done with them.

use crate::database::reports::{is_trial_balance, lemma_trial_balance_closes};
use crate::database::{
    find_transaction, lemma_find_transaction, sum_units, Database, LedgerError, Selector, Side,
};
use crate::models::account::Account;
use crate::models::journal_entry::TrialBalance;
use crate::models::transaction::{
    all_entries_valid, amounts_check, credit_column, debit_column, judged,
    CreateJournalEntryRequest, TransactionWithEntries, ValidationError,
};
use crate::money::{all_wf, checked_total, lemma_checked_total_exact, total_units, Money};
use vstd::prelude::*;

verus! {

/// Every transaction in consistent books balances: the debits of its
/// journal entries add up to exactly what its credits add up to.
pub proof fn every_transaction_balances(database: Database, id: i64)
    requires
        database.wf(),
        find_transaction(database.transactions(), id) is Some,
    ensures
        sum_units(database.entries(), Selector::OfTransaction(id), Side::Debit) == sum_units(
            database.entries(),
            Selector::OfTransaction(id),
            Side::Credit,
        ),
{
    lemma_find_transaction(database.transactions(), id);
    let found = find_transaction(database.transactions(), id)->0;
    let i = choose|i: int|
        0 <= i < database.transactions().len() && #[trigger] database.transactions()[i] == found;
    assert(database.transactions()[i].id == id);
}

/// Whether the amounts of every request are well formed.
pub open spec fn requests_wf(requests: Seq<CreateJournalEntryRequest>) -> bool {
    forall|i: int| 0 <= i < requests.len() ==> (#[trigger] requests[i]).wf()
}

/// The columns of well-formed requests are well formed.
proof fn lemma_columns_wf(requests: Seq<CreateJournalEntryRequest>)
    requires
        requests_wf(requests),
    ensures
        all_wf(debit_column(requests)),
        all_wf(credit_column(requests)),
{
    Money::lemma_zero();
    assert forall|i: int| 0 <= i < requests.len() implies (#[trigger] debit_column(
        requests,
    )[i]).wf() by {
        assert(requests[i].wf());
    }
    assert forall|i: int| 0 <= i < requests.len() implies (#[trigger] credit_column(
        requests,
    )[i]).wf() by {
        assert(requests[i].wf());
    }
}

/// A request whose debits do not add up to its credits is never accepted.
pub proof fn unbalanced_is_never_accepted(
    requests: Seq<CreateJournalEntryRequest>,
    outcome: Result<(Money, Money), ValidationError>,
)
    requires
        requests_wf(requests),
        total_units(debit_column(requests)) != total_units(credit_column(requests)),
        judged(requests, outcome),
    ensures
        outcome is Err,
{
    lemma_columns_wf(requests);
    if requests.len() > 0 && all_entries_valid(requests) {
        if checked_total(debit_column(requests)) is Some && checked_total(
            credit_column(requests),
        ) is Some {
            lemma_checked_total_exact(debit_column(requests));
            lemma_checked_total_exact(credit_column(requests));
        }
    }
}

/// A request with entries that are each valid, and with debits and credits
/// that can be added up but not to the same number, is refused as
/// unbalanced, and the two totals are reported.
pub proof fn unbalanced_is_reported(
    requests: Seq<CreateJournalEntryRequest>,
    outcome: Result<(Money, Money), ValidationError>,
)
    requires
        requests_wf(requests),
        requests.len() > 0,
        all_entries_valid(requests),
        checked_total(debit_column(requests)) is Some,
        checked_total(credit_column(requests)) is Some,
        total_units(debit_column(requests)) != total_units(credit_column(requests)),
        judged(requests, outcome),
    ensures
        outcome == Err::<(Money, Money), ValidationError>(
            ValidationError::Unbalanced {
                debits: checked_total(debit_column(requests))->0,
                credits: checked_total(credit_column(requests))->0,
            },
        ),
{
    lemma_columns_wf(requests);
    lemma_checked_total_exact(debit_column(requests));
    lemma_checked_total_exact(credit_column(requests));
}

/// An entry is accepted exactly when one of its two amounts is given, the
/// other is not, and the one given is greater than zero.
pub proof fn entry_needs_one_positive_amount(debit: Option<Money>, credit: Option<Money>)
    ensures
        amounts_check(debit, credit) is Ok <==> ((debit is Some && credit is None && debit->0@ > 0)
            || (debit is None && credit is Some && credit->0@ > 0)),
{
}

/// A request with an entry that gives both amounts, or neither, or one that
/// is not greater than zero, is never accepted.
pub proof fn faulty_entry_is_never_accepted(
    requests: Seq<CreateJournalEntryRequest>,
    k: int,
    outcome: Result<(Money, Money), ValidationError>,
)
    requires
        0 <= k < requests.len(),
        requests[k].spec_validate() is Err,
        judged(requests, outcome),
    ensures
        outcome is Err,
{
    assert(!all_entries_valid(requests));
}

/// An asset account with a positive balance shows it as its normal
/// balance, and has a normal balance; a liability account with a negative
/// balance shows the balance with its sign reversed, and has a normal
/// balance too.
pub proof fn normal_balance_follows_polarity(account: Account)
    requires
        account.balance.wf(),
    ensures
        account.account_type is Asset && account.balance@ > 0 ==> account.spec_normal_balance()
            == account.balance && account.spec_has_normal_balance(),
        account.account_type is Liability && account.balance@ < 0
            ==> account.spec_normal_balance()@ == -account.balance@
            && account.spec_has_normal_balance(),
        account.account_type.debit_normal() ==> account.spec_normal_balance()@
            == account.balance@,
        !account.account_type.debit_normal() ==> account.spec_normal_balance()@
            == -account.balance@,
{
    account.balance.lemma_negated();
}

/// Reading a transaction twice from the same books gives the same answer:
/// the same header, the same entries in the same order, the same totals.
pub proof fn reading_twice_agrees(
    database: Database,
    id: i64,
    first: TransactionWithEntries,
    second: TransactionWithEntries,
)
    requires
        database.shows(id, first),
        database.shows(id, second),
    ensures
        first.transaction == second.transaction,
        first.journal_entries@ == second.journal_entries@,
        first.total_debits == second.total_debits,
        first.total_credits == second.total_credits,
{
}

/// Reading a transaction of consistent books succeeds as long as the books
/// hold the accounts of all its entries; and two reads of the same books
/// give the same header, the same entries in the same order, and the same
/// totals.
pub proof fn reading_twice_succeeds_and_agrees(
    database: Database,
    id: i64,
    first: Result<Option<TransactionWithEntries>, LedgerError>,
    second: Result<Option<TransactionWithEntries>, LedgerError>,
)
    requires
        database.wf(),
        find_transaction(database.transactions(), id) is Some,
        database.resolved(id),
        database.reads(id, first),
        database.reads(id, second),
    ensures
        first matches Ok(Some(a)) && second matches Ok(Some(b)) && a.transaction == b.transaction
            && a.journal_entries@ == b.journal_entries@ && a.total_debits == b.total_debits
            && a.total_credits == b.total_credits,
{
    database.lemma_resolved_fits(id);
}

/// The trial balance closes: in consistent books where every journal entry
/// is on an account that the books hold, the two totals of the trial
/// balance are the same number, and the report says that it balances.
pub proof fn trial_balance_closes(database: Database, report: TrialBalance)
    requires
        database.wf(),
        database.entries_resolved(),
        is_trial_balance(database.accounts(), database.entries(), report),
    ensures
        report.total_debits@ == report.total_credits@,
        report.is_balanced,
{
    lemma_trial_balance_closes(
        database.accounts(),
        database.transactions(),
        database.entries(),
        database.next_account_id(),
        database.next_transaction_id(),
        database.next_entry_id(),
        report,
    );
}

} // verus!
