//! Operations on accounts.

use crate::database::{
    changed, find_account, find_account_by_code, opened, with_account_replaced, without_account,
    AccountsByCode, Database, LedgerError,
};
use crate::handlers::{
    not_found_error, validation_error, ApiError, BAD_REQUEST, INTERNAL_SERVER_ERROR, NOT_FOUND,
};
use crate::models::account::{Account, AccountType, CreateAccountRequest, UpdateAccountRequest};
use crate::sort::sorted;
use vstd::prelude::*;

verus! {

/// Which accounts a listing shows.
#[derive(Debug)]
pub struct ListAccountsQuery {
    /// Only accounts of this type.
    pub account_type: Option<AccountType>,
}

/// The accounts of the given type, in the order they stand in; all of them
/// where no type is given.
pub open spec fn of_type(accounts: Seq<Account>, account_type: Option<AccountType>) -> Seq<
    Account,
>
    decreases accounts.len(),
{
    if accounts.len() == 0 {
        Seq::empty()
    } else if account_type is None || account_type == Some(accounts.last().account_type) {
        of_type(accounts.drop_last(), account_type).push(accounts.last())
    } else {
        of_type(accounts.drop_last(), account_type)
    }
}

/// The accounts, ordered by code; only those of one type where the query
/// names one.
pub fn list_accounts(database: &Database, query: ListAccountsQuery) -> (r: Result<
    Vec<Account>,
    ApiError,
>)
    ensures
        r matches Ok(accounts) && accounts@ == of_type(
            sorted::<Account, AccountsByCode>(database.accounts()),
            query.account_type,
        ),
{
    let all = database.list_accounts();
    let mut kept: Vec<Account> = Vec::new();
    let mut i: usize = 0;
    assert(all@.take(0) =~= Seq::<Account>::empty());
    while i < all.len()
        invariant
            i <= all.len(),
            kept@ == of_type(all@.take(i as int), query.account_type),
        decreases all.len() - i,
    {
        proof {
            assert(all@.take(i + 1).drop_last() =~= all@.take(i as int));
            assert(all@.take(i + 1).last() == all@[i as int]);
        }
        let keep = match query.account_type {
            Some(wanted) => all[i].account_type == wanted,
            None => true,
        };
        if keep {
            kept.push(all[i].clone());
        }
        i = i + 1;
    }
    assert(all@.take(i as int) =~= all@);
    Ok(kept)
}

/// The account with the given id.
pub fn get_account(database: &Database, id: i64) -> (r: Result<Account, ApiError>)
    ensures
        match find_account(database.accounts(), id) {
            Some(account) => r matches Ok(found) && found == account,
            None => r matches Err(e) && e.is(NOT_FOUND, "Account"@ + " not found"@),
        },
{
    match database.get_account(id) {
        Some(account) => Ok(account),
        None => Err(not_found_error("Account")),
    }
}

/// Why a request to open an account is refused as it stands, if it is: its
/// code or its name is empty; its code is taken; or it names a parent that
/// the books do not hold. The first of these that applies is reported.
pub open spec fn opening_problem(accounts: Seq<Account>, request: CreateAccountRequest) -> Option<
    Seq<char>,
> {
    if request.code@.len() == 0 {
        Some("Account code cannot be empty"@)
    } else if request.name@.len() == 0 {
        Some("Account name cannot be empty"@)
    } else if find_account_by_code(accounts, request.code@) is Some {
        Some("Account code already exists"@)
    } else if request.parent_id is Some && find_account(accounts, request.parent_id->0) is None {
        Some("Parent account does not exist"@)
    } else {
        None
    }
}

/// Opens an account at the time `now`, with a balance of zero.
pub fn create_account(database: &mut Database, request: CreateAccountRequest, now: i64) -> (r:
    Result<Account, ApiError>)
    requires
        old(database).wf(),
    ensures
        final(database).wf(),
        final(database).transactions() == old(database).transactions(),
        final(database).entries() == old(database).entries(),
        match opening_problem(old(database).accounts(), request) {
            Some(reason) => {
                &&& r matches Err(e) && e.is(BAD_REQUEST, reason)
                &&& final(database).accounts() == old(database).accounts()
            },
            None => if old(database).next_account_id() == i64::MAX {
                &&& r matches Err(e) && e.is(
                    INTERNAL_SERVER_ERROR,
                    LedgerError::IdsExhausted.spec_message(),
                )
                &&& final(database).accounts() == old(database).accounts()
            } else {
                &&& r matches Ok(account) && account == opened(
                    old(database).next_account_id(),
                    request,
                    now,
                )
                &&& final(database).accounts() == old(database).accounts().push(r->Ok_0)
            },
        },
{
    if request.code.as_str().is_empty() {
        return Err(validation_error("Account code cannot be empty"));
    }
    if request.name.as_str().is_empty() {
        return Err(validation_error("Account name cannot be empty"));
    }
    if database.get_account_by_code(request.code.as_str()).is_some() {
        return Err(validation_error("Account code already exists"));
    }
    if let Some(parent) = request.parent_id {
        if database.get_account(parent).is_none() {
            return Err(validation_error("Parent account does not exist"));
        }
    }
    match database.create_account(request, now) {
        Ok(account) => Ok(account),
        Err(e) => Err(ApiError::from(e)),
    }
}

/// Why a change to an account is refused, if it is: the books do not hold
/// the account; the new name is empty; or the parent it names is not in the
/// books, or is the account itself. The first of these that applies is
/// reported, with its status.
pub open spec fn change_problem(
    accounts: Seq<Account>,
    id: i64,
    request: UpdateAccountRequest,
) -> Option<(u16, Seq<char>)> {
    if find_account(accounts, id) is None {
        Some((NOT_FOUND, "Account"@ + " not found"@))
    } else if request.name is Some && request.name->0@.len() == 0 {
        Some((BAD_REQUEST, "Account name cannot be empty"@))
    } else if request.parent_id is Some && find_account(accounts, request.parent_id->0) is None {
        Some((BAD_REQUEST, "Parent account does not exist"@))
    } else if request.parent_id == Some(id) {
        Some((BAD_REQUEST, "Account cannot be its own parent"@))
    } else {
        None
    }
}

/// Changes the name and the parent of an account where the request gives
/// them.
pub fn update_account(
    database: &mut Database,
    id: i64,
    request: UpdateAccountRequest,
    now: i64,
) -> (r: Result<Account, ApiError>)
    requires
        old(database).wf(),
    ensures
        final(database).wf(),
        final(database).transactions() == old(database).transactions(),
        final(database).entries() == old(database).entries(),
        match change_problem(old(database).accounts(), id, request) {
            Some((status, reason)) => {
                &&& r matches Err(e) && e.is(status, reason)
                &&& final(database).accounts() == old(database).accounts()
            },
            None => {
                &&& r matches Ok(account) && account == changed(
                    find_account(old(database).accounts(), id)->0,
                    request,
                    now,
                )
                &&& final(database).accounts() == with_account_replaced(
                    old(database).accounts(),
                    r->Ok_0,
                )
            },
        },
{
    if database.get_account(id).is_none() {
        return Err(not_found_error("Account"));
    }
    if let Some(name) = &request.name {
        if name.as_str().is_empty() {
            return Err(validation_error("Account name cannot be empty"));
        }
    }
    if let Some(parent) = request.parent_id {
        if database.get_account(parent).is_none() {
            return Err(validation_error("Parent account does not exist"));
        }
        if parent == id {
            return Err(validation_error("Account cannot be its own parent"));
        }
    }
    match database.update_account(id, request, now) {
        Ok(Some(account)) => Ok(account),
        Ok(None) => Err(not_found_error("Account")),
        Err(e) => Err(ApiError::from(e)),
    }
}

/// Takes an account out of the books. No check is made for journal entries
/// that name it.
pub fn delete_account(database: &mut Database, id: i64) -> (r: Result<(), ApiError>)
    requires
        old(database).wf(),
    ensures
        final(database).wf(),
        final(database).transactions() == old(database).transactions(),
        final(database).entries() == old(database).entries(),
        final(database).accounts() == without_account(old(database).accounts(), id),
        match find_account(old(database).accounts(), id) {
            Some(_) => r is Ok,
            None => r matches Err(e) && e.is(NOT_FOUND, "Account"@ + " not found"@),
        },
{
    if database.delete_account(id) {
        Ok(())
    } else {
        Err(not_found_error("Account"))
    }
}

} // verus!
