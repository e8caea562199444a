//! Who a caller is: from the session that a request carries to the account
//! behind it.

use crate::crypto::{base64_decoded, decode_base64, sha256, sha256_of};
use crate::handler::{Problem, STATUS_INTERNAL_SERVER_ERROR, STATUS_UNAUTHORIZED};
use crate::db::index_of_key;
use crate::store::user::{first_live, get_session, Accounts, LookupFailed};
use vstd::prelude::*;
use vstd::string::{StrSliceExecFns, StringExecFns};

verus! {

/// An authenticated caller. Times are nanoseconds since the Unix epoch.
pub struct User {
    pub id: i64,
    pub username: String,
    pub session_hash: String,
    pub created_at: i128,
    pub updated_at: i128,
}

impl From<(crate::store::user::User, String)> for User {
    fn from(value: (crate::store::user::User, String)) -> (user: User) {
        User {
            id: value.0.id,
            session_hash: value.1,
            username: value.0.username,
            created_at: value.0.created_at,
            updated_at: value.0.updated_at,
        }
    }
}

impl vstd::std_specs::convert::FromSpecImpl<(crate::store::user::User, String)> for User {
    open spec fn obeys_from_spec() -> bool {
        true
    }

    open spec fn from_spec(value: (crate::store::user::User, String)) -> User {
        User {
            id: value.0.id,
            session_hash: value.1,
            username: value.0.username,
            created_at: value.0.created_at,
            updated_at: value.0.updated_at,
        }
    }
}

/// Why a caller is not let in.
#[derive(Debug, Clone, Copy, PartialEq, Eq, Structural)]
pub enum AuthError {
    InvalidCredentials,
    MissingCredentials,
    Internal,
}

impl AuthError {
    /// The problem that the caller is told.
    pub fn problem(&self) -> (problem: Problem)
        ensures
            problem.status == (match *self {
                AuthError::Internal => STATUS_INTERNAL_SERVER_ERROR,
                _ => STATUS_UNAUTHORIZED,
            }),
            problem.message@ == (match *self {
                AuthError::InvalidCredentials => "Invalid credentials"@,
                AuthError::MissingCredentials => "Missing credentials"@,
                AuthError::Internal => "Internal Server Error"@,
            }),
    {
        match self {
            AuthError::InvalidCredentials => Problem::invalid_credentials(),
            AuthError::MissingCredentials => Problem::new(
                STATUS_UNAUTHORIZED,
                "Missing credentials".to_owned(),
            ),
            AuthError::Internal => Problem::internal(),
        }
    }
}

/// The sixteen digits, in order.
pub open spec fn hex_digits() -> Seq<char> {
    "0123456789abcdef"@
}

/// The bytes in lower-case hexadecimal, two digits for each byte.
pub open spec fn hex_of(bytes: Seq<u8>) -> Seq<char> {
    Seq::new(
        2 * bytes.len(),
        |i: int|
            if i % 2 == 0 {
                hex_digits()[bytes[i / 2] as int / 16]
            } else {
                hex_digits()[bytes[i / 2] as int % 16]
            },
    )
}

/// The bytes in lower-case hexadecimal.
pub fn to_hex(bytes: &[u8]) -> (text: String)
    ensures
        text@ == hex_of(bytes@),
{
    let digits = "0123456789abcdef";
    proof {
        reveal_strlit("0123456789abcdef");
        assert(digits.is_ascii()) by {
            assert forall|i: int| 0 <= i < digits@.len() implies (digits@[i] as u32) < 128 by {}
        }
    }
    let mut text = String::new();
    let mut at: usize = 0;
    while at < bytes.len()
        invariant
            at <= bytes@.len(),
            digits@ == hex_digits(),
            digits@.len() == 16,
            digits.is_ascii(),
            text@ == hex_of(bytes@.take(at as int)),
        decreases bytes@.len() - at,
    {
        let byte = bytes[at];
        let high = (byte / 16) as usize;
        let low = (byte % 16) as usize;
        text.append(digits.substring_ascii(high, high + 1));
        text.append(digits.substring_ascii(low, low + 1));
        proof {
            assert(text@ =~= hex_of(bytes@.take(at + 1)));
        }
        at += 1;
    }
    proof {
        assert(bytes@.take(at as int) =~= bytes@);
    }
    text
}

/// The key under which the session with the given token is stored: the
/// SHA-256 digest of the bytes that the token encodes, in hexadecimal. A
/// token that is no URL-safe base64 without padding has none.
pub open spec fn session_key(token: Seq<char>) -> Option<Seq<char>> {
    match base64_decoded(token) {
        Some(bytes) => Some(hex_of(sha256_of(bytes))),
        None => None,
    }
}

/// The key under which the session with the given token is stored.
pub fn session_hash(token: &str) -> (hash: Option<String>)
    ensures
        (hash is Some) == (session_key(token@) is Some),
        hash matches Some(text) ==> session_key(token@) == Some(text@),
{
    match decode_base64(token) {
        Some(bytes) => Some(hash_of(bytes.as_slice())),
        None => None,
    }
}

/// The key of a session with the given secret bytes.
pub fn hash_of(secret: &[u8]) -> (hash: String)
    ensures
        hash@ == hex_of(sha256_of(secret@)),
{
    let digest = sha256(secret);
    to_hex(digest.as_slice())
}

/// The key of the session that a request carries in its session cookie. A
/// request without the cookie lacks credentials; a cookie that holds no
/// token is invalid.
pub fn credentials(cookie: Option<&str>) -> (key: Result<String, AuthError>)
    ensures
        cookie is None ==> key == Err::<String, AuthError>(AuthError::MissingCredentials),
        cookie matches Some(token) ==> match session_key(token@) {
            Some(text) => key is Ok && key->Ok_0@ == text,
            None => key == Err::<String, AuthError>(AuthError::InvalidCredentials),
        },
{
    match cookie {
        None => Err(AuthError::MissingCredentials),
        Some(token) => match session_hash(token) {
            Some(hash) => Ok(hash),
            None => Err(AuthError::InvalidCredentials),
        },
    }
}

/// The caller behind a session, from what the lookup of the session's key
/// found: the account of a live session; invalid credentials where there is
/// no such session; an internal failure where the lookup failed.
pub fn get_user_from_session(
    found: Result<Option<crate::store::user::User>, LookupFailed>,
    session_hash: String,
) -> (user: Result<User, AuthError>)
    ensures
        match found {
            Ok(Some(row)) => user is Ok && user->Ok_0 == (User {
                id: row.id,
                username: row.username,
                session_hash,
                created_at: row.created_at,
                updated_at: row.updated_at,
            }),
            Ok(None) => user is Err && user->Err_0 == AuthError::InvalidCredentials,
            Err(_) => user is Err && user->Err_0 == AuthError::Internal,
        },
{
    match found {
        Ok(Some(row)) => Ok(User::from((row, session_hash))),
        Ok(None) => Err(AuthError::InvalidCredentials),
        Err(_) => Err(AuthError::Internal),
    }
}

/// The caller of a request, from its session cookie: the account of the first
/// session under the cookie's key that has not ended at `now`. A request
/// without the cookie lacks credentials; a cookie that holds no token, or
/// the token of no such session, is invalid.
pub fn authenticate(accounts: &Accounts, cookie: Option<&str>, now: i128) -> (user: Result<
    User,
    AuthError,
>)
    requires
        accounts.wf(),
    ensures
        cookie is None ==> user is Err && user->Err_0 == AuthError::MissingCredentials,
        cookie matches Some(token) ==> match session_key(token@) {
            None => user is Err && user->Err_0 == AuthError::InvalidCredentials,
            Some(key) => match first_live(accounts.sessions@, key, now) {
                None => user is Err && user->Err_0 == AuthError::InvalidCredentials,
                Some(at) => {
                    let row = accounts.users@[index_of_key(
                        accounts.users@,
                        accounts.sessions@[at].user_id,
                    )];
                    &&& user is Ok
                    &&& user->Ok_0.id == row.id
                    &&& user->Ok_0.username == row.username
                    &&& user->Ok_0.session_hash@ == key
                    &&& user->Ok_0.created_at == row.created_at
                    &&& user->Ok_0.updated_at == row.updated_at
                },
            },
        },
{
    let key = match credentials(cookie) {
        Ok(key) => key,
        Err(error) => {
            return Err(error);
        },
    };
    let found = get_session(accounts, key.as_str(), now);
    get_user_from_session(Ok(found), key)
}

} // verus!
