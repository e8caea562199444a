//! The operations of the list as a caller sees them, and the problems they report.

use vstd::prelude::*;

pub mod auth;
pub mod item;
pub mod organize;
pub mod section;
pub mod store;

verus! {

/// The caller did not prove who they are.
pub const STATUS_UNAUTHORIZED: u16 = 401;

/// What the request names does not exist.
pub const STATUS_NOT_FOUND: u16 = 404;

/// The request contradicts what is stored.
pub const STATUS_CONFLICT: u16 = 409;

/// The failure is not the caller's.
pub const STATUS_INTERNAL_SERVER_ERROR: u16 = 500;

/// Why an operation was refused: a status code and a message for the caller.
#[derive(Debug)]
pub struct Problem {
    pub status: u16,
    pub message: String,
}

impl Problem {
    pub fn new(status: u16, message: String) -> (problem: Problem)
        ensures
            problem.status == status,
            problem.message == message,
    {
        Problem { status, message }
    }

    /// A failure whose cause is kept from the caller.
    pub fn internal() -> (problem: Problem)
        ensures
            problem.status == STATUS_INTERNAL_SERVER_ERROR,
            problem.message@ == "Internal Server Error"@,
    {
        Problem::new(STATUS_INTERNAL_SERVER_ERROR, "Internal Server Error".to_owned())
    }

    pub fn invalid_credentials() -> (problem: Problem)
        ensures
            problem.status == STATUS_UNAUTHORIZED,
            problem.message@ == "Invalid credentials"@,
    {
        Problem::new(STATUS_UNAUTHORIZED, "Invalid credentials".to_owned())
    }

    pub fn not_found() -> (problem: Problem)
        ensures
            problem.status == STATUS_NOT_FOUND,
            problem.message@ == "Not found"@,
    {
        Problem::new(STATUS_NOT_FOUND, "Not found".to_owned())
    }
}

} // verus!
