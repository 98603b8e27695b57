//! The operations that the books offer to the outside, each answering with
//! a value or with a status and a reason in words.

pub mod accounts;
pub mod reports;
pub mod transactions;

use crate::database::LedgerError;
use vstd::prelude::*;
use vstd::string::StringExecFns;

verus! {

/// The status of a request that is refused as it stands.
pub const BAD_REQUEST: u16 = 400;

/// The status of a request for something that the books do not hold.
pub const NOT_FOUND: u16 = 404;

/// The status of a failure inside the books.
pub const INTERNAL_SERVER_ERROR: u16 = 500;

/// The status of a request for an operation that the books do not offer.
pub const NOT_IMPLEMENTED: u16 = 501;

/// A refusal: a status and the reason in words.
#[derive(Debug)]
pub struct ApiError {
    pub status: u16,
    pub message: String,
}

impl ApiError {
    /// Whether the refusal has the given status and reason.
    pub open spec fn is(self, status: u16, message: Seq<char>) -> bool {
        self.status == status && self.message@ == message
    }

    /// A refusal by the books that reaches the outside unhandled is
    /// reported as a failure inside, with the books' reason.
    pub fn from(error: LedgerError) -> (r: ApiError)
        ensures
            r.is(INTERNAL_SERVER_ERROR, error.spec_message()),
    {
        ApiError { status: INTERNAL_SERVER_ERROR, message: error.message() }
    }
}

/// Create a validation error.
pub fn validation_error(message: &str) -> (r: ApiError)
    ensures
        r.is(BAD_REQUEST, message@),
{
    ApiError { status: BAD_REQUEST, message: String::from_str(message) }
}

/// Create a not found error.
pub fn not_found_error(resource: &str) -> (r: ApiError)
    ensures
        r.is(NOT_FOUND, resource@ + " not found"@),
{
    let mut message = String::from_str(resource);
    message.append(" not found");
    ApiError { status: NOT_FOUND, message }
}

} // verus!
