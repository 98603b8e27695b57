//! Which transactions a listing shows, and in what order.

use crate::database::{find_transaction, transactions_wf};
use crate::models::transaction::{Transaction, TransactionFilter};
use crate::sort::{lemma_sorted_members, sorted, Ranking};
use crate::text::{lowercase_text, occurs_in, str_contains, str_lowercase};
use vstd::prelude::*;

verus! {

/// The order of a listing: the latest date first, and of two transactions
/// of one day the one with the greater id first.
pub struct NewestFirst {}

impl Ranking<Transaction> for NewestFirst {
    open spec fn at_most(a: Transaction, b: Transaction) -> bool {
        !a.transaction_date.earlier_than(b.transaction_date) && (b.transaction_date.earlier_than(
            a.transaction_date,
        ) || a.id >= b.id)
    }

    proof fn total(a: Transaction, b: Transaction) {
    }

    proof fn transitive(a: Transaction, b: Transaction, c: Transaction) {
    }

    fn precedes(a: &Transaction, b: &Transaction) -> (r: bool) {
        !a.transaction_date.is_before(&b.transaction_date) && (b.transaction_date.is_before(
            &a.transaction_date,
        ) || a.id >= b.id)
    }
}

/// Whether a transaction passes the filter: it is dated within the two
/// bounds, each inclusive, where they are given; and its description
/// contains the text asked for, where one is, both taken in lower case.
pub open spec fn passes(transaction: Transaction, filter: TransactionFilter) -> bool {
    &&& filter.start_date matches Some(start) ==> !transaction.transaction_date.earlier_than(start)
    &&& filter.end_date matches Some(end) ==> !end.earlier_than(transaction.transaction_date)
    &&& filter.description_contains matches Some(text) ==> occurs_in(
        lowercase_text(text@),
        lowercase_text(transaction.description@),
    )
}

/// The transactions of `listing` that pass the filter, in the same order.
pub open spec fn passing(listing: Seq<Transaction>, filter: TransactionFilter) -> Seq<Transaction>
    decreases listing.len(),
{
    if listing.len() == 0 {
        Seq::empty()
    } else if passes(listing.last(), filter) {
        passing(listing.drop_last(), filter).push(listing.last())
    } else {
        passing(listing.drop_last(), filter)
    }
}

/// How many passing transactions a listing passes over first: the offset
/// of the filter, none where it is left out or negative.
pub open spec fn page_start(filter: TransactionFilter) -> nat {
    match filter.offset {
        Some(offset) => if offset > 0 {
            offset as nat
        } else {
            0
        },
        None => 0,
    }
}

/// The part of the passing transactions that a listing shows: from the
/// offset on, and no more than the limit. A limit that is left out or
/// negative is no limit.
pub open spec fn page(items: Seq<Transaction>, filter: TransactionFilter) -> Seq<Transaction> {
    let start = if page_start(filter) < items.len() {
        page_start(filter) as int
    } else {
        items.len() as int
    };
    let rest = items.skip(start);
    match filter.limit {
        Some(limit) => if 0 <= limit < rest.len() {
            rest.take(limit as int)
        } else {
            rest
        },
        None => rest,
    }
}

/// The transactions that a listing with the given filter shows, in order.
pub open spec fn listed(transactions: Seq<Transaction>, filter: TransactionFilter) -> Seq<
    Transaction,
> {
    page(passing(sorted::<Transaction, NewestFirst>(transactions), filter), filter)
}

/// Decides whether a transaction passes the filter.
pub fn check_filter(transaction: &Transaction, filter: &TransactionFilter) -> (r: bool)
    ensures
        r == passes(*transaction, *filter),
{
    if let Some(start) = &filter.start_date {
        if transaction.transaction_date.is_before(start) {
            return false;
        }
    }
    if let Some(end) = &filter.end_date {
        if end.is_before(&transaction.transaction_date) {
            return false;
        }
    }
    if let Some(text) = &filter.description_contains {
        let description = str_lowercase(transaction.description.as_str());
        let wanted = str_lowercase(text.as_str());
        if !str_contains(description.as_str(), wanted.as_str()) {
            return false;
        }
    }
    true
}

/// Every passing transaction is one of the listing.
pub proof fn lemma_passing_members(listing: Seq<Transaction>, filter: TransactionFilter)
    ensures
        forall|i: int|
            0 <= i < passing(listing, filter).len() ==> listing.contains(
                #[trigger] passing(listing, filter)[i],
            ),
    decreases listing.len(),
{
    if listing.len() > 0 {
        let front = listing.drop_last();
        lemma_passing_members(front, filter);
        let inner = passing(front, filter);
        let out = passing(listing, filter);
        assert forall|i: int| 0 <= i < out.len() implies listing.contains(#[trigger] out[i]) by {
            if i < inner.len() {
                assert(out[i] == inner[i]);
                let j = choose|j: int| 0 <= j < front.len() && front[j] == inner[i];
                assert(listing[j] == out[i]);
            } else {
                assert(out[i] == listing[listing.len() - 1]);
            }
        }
    }
}

/// Every transaction that a listing shows is a transaction of the books,
/// found under its id.
pub proof fn lemma_listed_members(
    transactions: Seq<Transaction>,
    next_id: i64,
    filter: TransactionFilter,
)
    requires
        transactions_wf(transactions, next_id),
    ensures
        forall|i: int|
            0 <= i < listed(transactions, filter).len() ==> find_transaction(
                transactions,
                (#[trigger] listed(transactions, filter)[i]).id,
            ) == Some(listed(transactions, filter)[i]),
{
    let ordered = sorted::<Transaction, NewestFirst>(transactions);
    let chosen = passing(ordered, filter);
    let out = listed(transactions, filter);
    lemma_sorted_members::<Transaction, NewestFirst>(transactions);
    lemma_passing_members(ordered, filter);
    assert forall|i: int| 0 <= i < out.len() implies find_transaction(
        transactions,
        (#[trigger] out[i]).id,
    ) == Some(out[i]) by {
        assert(chosen.contains(out[i])) by {
            let start = if page_start(filter) < chosen.len() {
                page_start(filter) as int
            } else {
                chosen.len() as int
            };
            assert(out[i] == chosen[start + i]);
        }
        let j = choose|j: int| 0 <= j < chosen.len() && chosen[j] == out[i];
        assert(ordered.contains(chosen[j]));
        let k = choose|k: int| 0 <= k < ordered.len() && ordered[k] == out[i];
        assert(transactions.contains(ordered[k]));
        let m = choose|m: int| 0 <= m < transactions.len() && transactions[m] == out[i];
        crate::database::lemma_find_transaction(transactions, out[i].id);
        let found = find_transaction(transactions, out[i].id)->0;
        let n = choose|n: int| 0 <= n < transactions.len() && #[trigger] transactions[n] == found;
        if n < m {
            assert(transactions[n].id < transactions[m].id);
        } else if m < n {
            assert(transactions[m].id < transactions[n].id);
        }
    }
}

} // verus!
