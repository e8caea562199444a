//! The columns of the account tables.

use vstd::prelude::*;

verus! {

/// The table of accounts and its columns.
#[derive(Debug, Clone, Copy, PartialEq, Eq, Structural)]
pub enum Users {
    Table,
    Id,
    Username,
    PasswordHash,
    CreatedAt,
    UpdatedAt,
}

/// The table of sessions and its columns.
#[derive(Debug, Clone, Copy, PartialEq, Eq, Structural)]
pub enum UserSessions {
    Table,
    UserId,
    SessionHash,
    ExpiresAt,
    CreatedAt,
}

} // verus!
