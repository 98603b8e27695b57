//! Operations on transactions.

use crate::database::listing::listed;
use crate::database::{
    all_accounts_known, find_account, find_transaction, is_first_unknown, sum_units, Database,
    LedgerError, Selector, Side,
};
use crate::date::Date;
use crate::handlers::{
    not_found_error, validation_error, ApiError, BAD_REQUEST, INTERNAL_SERVER_ERROR, NOT_FOUND,
    NOT_IMPLEMENTED,
};
use crate::models::transaction::{
    judged, CreateJournalEntryRequest, CreateTransactionRequest,
    TransactionFilter, TransactionWithEntries, UpdateTransactionRequest, ValidationError,
};
use crate::money::Money;
use crate::text::{integer_text, integer_to_string};
use vstd::prelude::*;
use vstd::std_specs::convert::FromSpecImpl;
use vstd::string::StringExecFns;

verus! {

/// Which transactions a listing shows, as it is asked for from outside. A
/// limit that is left out is fifty, an offset that is left out none.
#[derive(Debug)]
pub struct ListTransactionsQuery {
    pub start_date: Option<Date>,
    pub end_date: Option<Date>,
    pub account_id: Option<i64>,
    pub description_contains: Option<String>,
    pub limit: Option<i64>,
    pub offset: Option<i64>,
}

impl From<ListTransactionsQuery> for TransactionFilter {
    fn from(query: ListTransactionsQuery) -> (r: TransactionFilter) {
        TransactionFilter {
            start_date: query.start_date,
            end_date: query.end_date,
            account_id: query.account_id,
            description_contains: query.description_contains,
            min_amount: None,
            max_amount: None,
            limit: match query.limit {
                Some(limit) => Some(limit),
                None => Some(50),
            },
            offset: match query.offset {
                Some(offset) => Some(offset),
                None => Some(0),
            },
        }
    }
}

impl FromSpecImpl<ListTransactionsQuery> for TransactionFilter {
    open spec fn obeys_from_spec() -> bool {
        true
    }

    open spec fn from_spec(query: ListTransactionsQuery) -> TransactionFilter {
        filter_of(query)
    }
}

/// The filter that a query stands for: a limit that is left out is fifty,
/// an offset that is left out none.
pub open spec fn filter_of(query: ListTransactionsQuery) -> TransactionFilter {
    TransactionFilter {
        start_date: query.start_date,
        end_date: query.end_date,
        account_id: query.account_id,
        description_contains: query.description_contains,
        min_amount: None,
        max_amount: None,
        limit: match query.limit {
            Some(limit) => Some(limit),
            None => Some(50i64),
        },
        offset: match query.offset {
            Some(offset) => Some(offset),
            None => Some(0i64),
        },
    }
}

/// The reason for which an entry on an account that the books do not hold
/// is refused.
pub open spec fn unknown_account_text(account_id: i64) -> Seq<char> {
    "Account with ID "@ + integer_text(account_id as int) + " does not exist"@
}

/// The reason for which an entry on an account that the books do not hold
/// is refused.
pub fn unknown_account_message(account_id: i64) -> (r: String)
    ensures
        r@ == unknown_account_text(account_id),
{
    let mut text = String::from_str("Account with ID ");
    text.append(integer_to_string(account_id as i128).as_str());
    text.append(" does not exist");
    text
}

/// The transactions that pass the query, newest first, with their entries
/// and totals.
pub fn list_transactions(database: &Database, query: ListTransactionsQuery) -> (r: Result<
    Vec<TransactionWithEntries>,
    ApiError,
>)
    requires
        database.wf(),
    ensures
        match r {
            Ok(views) => {
                let shown = listed(database.transactions(), filter_of(query));
                &&& views@.len() == shown.len()
                &&& forall|i: int|
                    0 <= i < views@.len() ==> database.shows(shown[i].id, #[trigger] views@[i])
            },
            Err(e) => e.is(INTERNAL_SERVER_ERROR, LedgerError::AmountOutOfRange.spec_message())
                && exists|i: int|
                0 <= i < listed(
                    database.transactions(),
                    filter_of(query),
                ).len() && !database.totals_fit(
                    (#[trigger] listed(
                        database.transactions(),
                        filter_of(query),
                    )[i]).id,
                ),
        },
        database.entries_resolved() ==> r is Ok,
{
    let filter = TransactionFilter::from(query);
    match database.list_transactions(filter) {
        Ok(views) => Ok(views),
        Err(e) => Err(ApiError::from(e)),
    }
}

/// The transaction with the given id, with its entries and totals.
pub fn get_transaction(database: &Database, id: i64) -> (r: Result<
    TransactionWithEntries,
    ApiError,
>)
    ensures
        match r {
            Ok(view) => database.shows(id, view),
            Err(e) => if find_transaction(database.transactions(), id) is None {
                e.is(NOT_FOUND, "Transaction"@ + " not found"@)
            } else {
                e.is(INTERNAL_SERVER_ERROR, LedgerError::AmountOutOfRange.spec_message())
                    && !database.totals_fit(id)
            },
        },
        database.wf() && database.resolved(id) && find_transaction(database.transactions(), id)
            is Some ==> r is Ok,
{
    match database.get_transaction(id) {
        Ok(Some(view)) => Ok(view),
        Ok(None) => Err(not_found_error("Transaction")),
        Err(e) => Err(ApiError::from(e)),
    }
}

/// Whether `e` is the refusal that a request to post a transaction meets:
/// it does not pass validation, and the reason is reported; or, failing
/// that, one of its entries is on an account that the books do not hold,
/// and the first such account is reported; or, failing that, the books
/// have no ids left.
pub open spec fn refuses_request(
    database: Database,
    request: CreateTransactionRequest,
    e: ApiError,
) -> bool {
    let requests = request.journal_entries@;
    if !request.accepted() {
        exists|v: ValidationError| #[trigger]
            judged(requests, Err::<(Money, Money), ValidationError>(v)) && e.is(
                BAD_REQUEST,
                v.spec_message(),
            )
    } else if !all_accounts_known(database.accounts(), requests) {
        exists|k: int| #[trigger]
            is_first_unknown(database.accounts(), requests, k) && e.is(
                BAD_REQUEST,
                unknown_account_text(requests[k].account_id),
            )
    } else {
        !database.has_room(requests.len()) && e.is(
            INTERNAL_SERVER_ERROR,
            LedgerError::IdsExhausted.spec_message(),
        )
    }
}

/// Posts a transaction at the time `now`: the request has to pass
/// validation, and every entry has to be on an account that the books hold.
/// A request that is refused changes nothing.
pub fn create_transaction(
    database: &mut Database,
    request: CreateTransactionRequest,
    now: i64,
) -> (r: Result<TransactionWithEntries, ApiError>)
    requires
        old(database).wf(),
    ensures
        final(database).wf(),
        match r {
            Ok(posted) => {
                &&& old(database).posts(request, now, *final(database), posted)
                &&& final(database).shows(posted.transaction.id, posted)
                &&& posted.total_debits@ == posted.total_credits@
                &&& sum_units(
                    final(database).entries(),
                    Selector::OfTransaction(posted.transaction.id),
                    Side::Debit,
                ) == sum_units(
                    final(database).entries(),
                    Selector::OfTransaction(posted.transaction.id),
                    Side::Credit,
                )
            },
            Err(e) => refuses_request(*old(database), request, e) && *final(database) == *old(
                database,
            ),
        },
{
    if let Err(v) = request.validate() {
        return Err(validation_error(v.message().as_str()));
    }
    if let Some(account_id) = database.unknown_account(&request.journal_entries) {
        return Err(validation_error(unknown_account_message(account_id).as_str()));
    }
    match database.create_transaction(request, now) {
        Ok(posted) => Ok(posted),
        Err(e) => Err(ApiError::from(e)),
    }
}

/// Changing a transaction is not offered: a change to one leg would have
/// to rebalance the others. The request is refused in every case, whatever
/// it asks for: where the books do not hold the transaction, and otherwise
/// because the operation does not exist. The books are only read.
pub fn update_transaction(database: &Database, id: i64, request: UpdateTransactionRequest) -> (r:
    Result<TransactionWithEntries, ApiError>)
    ensures
        r matches Err(e) && (if find_transaction(database.transactions(), id) is None {
            e.is(NOT_FOUND, "Transaction"@ + " not found"@)
        } else {
            e.is(NOT_IMPLEMENTED, "Transaction updates are not yet implemented"@)
        }),
{
    if !database.has_transaction(id) {
        return Err(not_found_error("Transaction"));
    }
    Err(
        ApiError {
            status: NOT_IMPLEMENTED,
            message: String::from_str("Transaction updates are not yet implemented"),
        },
    )
}

/// Deleting a transaction is not offered. The request is refused in every
/// case: where the books do not hold the transaction, and otherwise
/// because the operation does not exist.
pub fn delete_transaction(database: &Database, id: i64) -> (r: Result<(), ApiError>)
    ensures
        r matches Err(e) && (if find_transaction(database.transactions(), id) is None {
            e.is(NOT_FOUND, "Transaction"@ + " not found"@)
        } else {
            e.is(NOT_IMPLEMENTED, "Transaction deletion is not yet implemented"@)
        }),
{
    if !database.has_transaction(id) {
        return Err(not_found_error("Transaction"));
    }
    Err(
        ApiError {
            status: NOT_IMPLEMENTED,
            message: String::from_str("Transaction deletion is not yet implemented"),
        },
    )
}

/// What a trial run of a transaction request finds.
#[derive(Debug)]
pub struct TransactionValidation {
    /// Whether the request would be posted.
    pub valid: bool,
    /// The reasons for which it would not.
    pub errors: Vec<String>,
    /// The total amount of the transaction, where the request is valid and
    /// the amount can be formed.
    pub total_amount: Option<Money>,
}

/// The reasons for which the entries on accounts that the books do not hold
/// are refused, in the order of the entries.
pub open spec fn unknown_account_texts(
    accounts: Seq<crate::models::account::Account>,
    requests: Seq<CreateJournalEntryRequest>,
) -> Seq<Seq<char>>
    decreases requests.len(),
{
    if requests.len() == 0 {
        Seq::empty()
    } else if find_account(accounts, requests.last().account_id) is None {
        unknown_account_texts(accounts, requests.drop_last()).push(
            unknown_account_text(requests.last().account_id),
        )
    } else {
        unknown_account_texts(accounts, requests.drop_last())
    }
}

/// The texts of the strings.
pub open spec fn texts(strings: Seq<String>) -> Seq<Seq<char>> {
    Seq::new(strings.len(), |i: int| strings[i]@)
}

/// Tries a transaction request without posting it. A request that does not
/// pass validation is reported with that reason alone. Otherwise every
/// entry on an account that the books do not hold is reported; where there
/// is none the request is valid, and its total amount is given.
pub fn validate_transaction(database: &Database, request: CreateTransactionRequest) -> (r:
    TransactionValidation)
    ensures
        if !request.accepted() {
            &&& !r.valid
            &&& r.total_amount is None
            &&& r.errors@.len() == 1
            &&& exists|v: ValidationError| #[trigger]
                judged(request.journal_entries@, Err::<(Money, Money), ValidationError>(v))
                    && r.errors@[0]@ == v.spec_message()
        } else {
            &&& texts(r.errors@) == unknown_account_texts(
                database.accounts(),
                request.journal_entries@,
            )
            &&& r.valid == (r.errors@.len() == 0)
            &&& r.total_amount == (if r.valid {
                request.spec_total_amount()
            } else {
                None
            })
        },
{
    if let Err(v) = request.validate() {
        let mut errors: Vec<String> = Vec::new();
        errors.push(v.message());
        return TransactionValidation { valid: false, errors, total_amount: None };
    }
    let mut errors: Vec<String> = Vec::new();
    let requests = &request.journal_entries;
    let mut i: usize = 0;
    assert(requests@.take(0) =~= Seq::<CreateJournalEntryRequest>::empty());
    assert(texts(errors@) =~= Seq::<Seq<char>>::empty());
    while i < requests.len()
        invariant
            i <= requests.len(),
            texts(errors@) == unknown_account_texts(
                database.accounts(),
                requests@.take(i as int),
            ),
        decreases requests.len() - i,
    {
        proof {
            assert(requests@.take(i + 1).drop_last() =~= requests@.take(i as int));
            assert(requests@.take(i + 1).last() == requests@[i as int]);
        }
        if database.get_account(requests[i].account_id).is_none() {
            let ghost before = errors@;
            errors.push(unknown_account_message(requests[i].account_id));
            proof {
                assert(texts(errors@) =~= texts(before).push(
                    unknown_account_text(requests@[i as int].account_id),
                ));
            }
        }
        i = i + 1;
    }
    assert(requests@.take(i as int) =~= requests@);
    let valid = errors.len() == 0;
    let total_amount = if valid {
        request.total_amount()
    } else {
        None
    };
    TransactionValidation { valid, errors, total_amount }
}

} // verus!
