//! Logging in: checking a password and issuing a session.

use crate::auth::{hash_of, hex_of};
use crate::crypto::{
    base64_encoded, encode_base64, password_verdict, random_bytes, sha256_of, verify_password,
};
use crate::handler::{Problem, STATUS_INTERNAL_SERVER_ERROR, STATUS_UNAUTHORIZED};
use crate::store::user::{get_user, other_session, Accounts, LookupFailed, User};
use vstd::prelude::*;

verus! {

/// How a caller means to log in.
#[derive(Debug, Clone, Copy, PartialEq, Eq, Structural)]
pub enum AuthType {
    Web,
}

/// What a caller gives to log in.
pub struct Credentials {
    pub auth_type: AuthType,
    pub username: String,
    pub password: String,
}

/// Why a login is refused.
#[derive(Debug, Clone, Copy, PartialEq, Eq, Structural)]
pub enum LoginError {
    InvalidCredentials,
    Internal,
}

impl LoginError {
    /// The problem that the caller is told.
    pub fn problem(&self) -> (problem: Problem)
        ensures
            problem.status == (match *self {
                LoginError::InvalidCredentials => STATUS_UNAUTHORIZED,
                LoginError::Internal => STATUS_INTERNAL_SERVER_ERROR,
            }),
            problem.message@ == (match *self {
                LoginError::InvalidCredentials => "Invalid credentials"@,
                LoginError::Internal => "Internal Server Error"@,
            }),
    {
        match self {
            LoginError::InvalidCredentials => Problem::invalid_credentials(),
            LoginError::Internal => Problem::internal(),
        }
    }
}

/// A session as the caller gets it: the token, and when it ends, in
/// nanoseconds since the Unix epoch.
#[derive(Debug)]
pub struct Session {
    pub session: String,
    pub expires_at: i128,
}

/// A session that was just made: what the caller gets, and the key under
/// which it is stored.
#[derive(Debug)]
pub struct IssuedSession {
    pub session: Session,
    pub session_hash: String,
}

/// How long a session lasts: 30 days, in nanoseconds.
pub const SESSION_NANOS: i128 = 2_592_000_000_000_000;

/// What a login with the password comes to, given what the lookup of the
/// account found: the id of the account whose stored hash the password
/// matches; invalid credentials where there is no such account or the
/// password does not match; an internal failure where the lookup failed or
/// the stored hash cannot be read.
pub open spec fn login_outcome(found: Result<Option<User>, LookupFailed>, verdict: Option<bool>) -> Result<
    i64,
    LoginError,
> {
    match found {
        Ok(Some(user)) => match verdict {
            Some(true) => Ok(user.id),
            Some(false) => Err(LoginError::InvalidCredentials),
            None => Err(LoginError::Internal),
        },
        Ok(None) => Err(LoginError::InvalidCredentials),
        Err(_) => Err(LoginError::Internal),
    }
}

/// Decides a login from what the lookup of the account found and what the
/// check of the password against its stored hash said.
pub fn decide_login(found: &Result<Option<User>, LookupFailed>, verdict: Option<bool>) -> (decided: Result<
    i64,
    LoginError,
>)
    ensures
        decided == login_outcome(*found, verdict),
{
    match found {
        Ok(Some(user)) => match verdict {
            Some(true) => Ok(user.id),
            Some(false) => Err(LoginError::InvalidCredentials),
            None => Err(LoginError::Internal),
        },
        Ok(None) => Err(LoginError::InvalidCredentials),
        Err(_) => Err(LoginError::Internal),
    }
}

/// Checks the credentials against what the lookup of the account found.
pub fn check_password(found: Result<Option<User>, LookupFailed>, credentials: &Credentials) -> (decided: Result<
    i64,
    LoginError,
>)
    ensures
        decided == login_outcome(
            found,
            match found {
                Ok(Some(user)) => password_verdict(credentials.password@, user.password_hash@),
                _ => None,
            },
        ),
{
    let verdict = match &found {
        Ok(Some(user)) => verify_password(
            credentials.password.as_str(),
            user.password_hash.as_str(),
        ),
        _ => None,
    };
    decide_login(&found, verdict)
}

/// The session with the given secret bytes, made at `now`: the token is the
/// secret in URL-safe base64, the session is stored under the hash of the
/// secret, and it lasts 30 days.
pub fn session_from(secret: &[u8], now: i128) -> (issued: IssuedSession)
    requires
        secret@.len() <= 0x3000_0000,
        now + SESSION_NANOS <= i128::MAX,
    ensures
        issued.session.session@ == base64_encoded(secret@),
        issued.session.expires_at == now + SESSION_NANOS,
        issued.session_hash@ == hex_of(sha256_of(secret@)),
{
    IssuedSession {
        session: Session { session: encode_base64(secret), expires_at: now + SESSION_NANOS },
        session_hash: hash_of(secret),
    }
}

/// Makes a session with a fresh random secret of 64 bytes. Where the system
/// gives no random bytes, or the session would end beyond the range of
/// times, the failure is internal.
pub fn create_session(now: i128) -> (issued: Result<IssuedSession, LoginError>)
    ensures
        now + SESSION_NANOS > i128::MAX ==> issued is Err,
        issued matches Err(error) ==> error == LoginError::Internal,
        issued matches Ok(made) ==> made.session.expires_at == now + SESSION_NANOS && exists|
            secret: Seq<u8>,
        |
            secret.len() == 64 && made.session.session@ == #[trigger] base64_encoded(secret)
                && made.session_hash@ == hex_of(sha256_of(secret)),
{
    if now > i128::MAX - SESSION_NANOS {
        return Err(LoginError::Internal);
    }
    match random_bytes() {
        Some(secret) => {
            let issued = session_from(secret.as_slice(), now);
            proof {
                assert(issued.session.session@ == base64_encoded(secret@));
            }
            Ok(issued)
        },
        None => Err(LoginError::Internal),
    }
}

/// Logs a caller in: checks the password of the named account and, where it
/// matches, stores a new session of 30 days and hands out its token. Where
/// the credentials are refused or the session cannot be made, nothing is
/// stored.
pub fn login(accounts: &mut Accounts, credentials: &Credentials, now: i128) -> (session: Result<
    Session,
    LoginError,
>)
    requires
        old(accounts).wf(),
    ensures
        final(accounts).wf(),
        final(accounts).users == old(accounts).users,
        final(accounts).last_user_id == old(accounts).last_user_id,
        session is Err ==> *final(accounts) == *old(accounts),
        !crate::store::user::has_name(old(accounts).users@, credentials.username@) ==> session is Err
            && session->Err_0 == LoginError::InvalidCredentials,
        forall|i: int|
            0 <= i < old(accounts).users@.len() && (#[trigger] old(accounts).users@[i]).username@
                == credentials.username@ ==> match password_verdict(
                credentials.password@,
                old(accounts).users@[i].password_hash@,
            ) {
                Some(true) => session matches Ok(made) ==> {
                    let stored = final(accounts).sessions@.last();
                    &&& final(accounts).sessions@ == old(accounts).sessions@.push(stored)
                    &&& stored.user_id == old(accounts).users@[i].id
                    &&& stored.expires_at == now + SESSION_NANOS
                    &&& stored.created_at == now
                    &&& made.expires_at == now + SESSION_NANOS
                    &&& exists|secret: Seq<u8>|
                        secret.len() == 64 && made.session@ == #[trigger] base64_encoded(secret)
                            && stored.session_hash@ == hex_of(sha256_of(secret))
                },
                Some(false) => session is Err && session->Err_0 == LoginError::InvalidCredentials,
                None => session is Err && session->Err_0 == LoginError::Internal,
            },
{
    let found = get_user(accounts, credentials.username.as_str());
    proof {
        if found is Some {
            let row = found->0;
            let w = choose|w: int| 0 <= w < accounts.users@.len() && accounts.users@[w] == row;
            assert forall|i: int|
                0 <= i < accounts.users@.len() && (#[trigger] accounts.users@[i]).username@
                    == credentials.username@ implies accounts.users@[i] == row by {
                if i < w {
                    assert(accounts.users@[i].username@ != accounts.users@[w].username@);
                } else if w < i {
                    assert(accounts.users@[w].username@ != accounts.users@[i].username@);
                }
            }
            assert(crate::db::has_key(accounts.users@, row.id)) by {
                assert(crate::db::Keyed::key(&accounts.users@[w]) == row.id);
            }
        }
    }
    let user_id = match check_password(Ok(found), credentials) {
        Ok(user_id) => user_id,
        Err(error) => {
            return Err(error);
        },
    };
    let issued = match create_session(now) {
        Ok(issued) => issued,
        Err(error) => {
            return Err(error);
        },
    };
    match crate::store::user::create_session(
        accounts,
        user_id,
        issued.session_hash.as_str(),
        issued.session.expires_at,
        now,
    ) {
        Ok(()) => Ok(issued.session),
        Err(_) => Err(LoginError::Internal),
    }
}

/// Logs the caller out: removes the sessions under the key of the caller's.
pub fn logout(accounts: &mut Accounts, user: &crate::auth::User)
    requires
        old(accounts).wf(),
    ensures
        final(accounts).wf(),
        final(accounts).sessions@ == old(accounts).sessions@.filter(
            other_session(user.session_hash@),
        ),
        final(accounts).users == old(accounts).users,
        final(accounts).last_user_id == old(accounts).last_user_id,
{
    crate::store::user::delete_session(accounts, user.session_hash.as_str())
}

/// The caller, as the caller is shown.
pub fn me(user: crate::auth::User) -> (shown: crate::auth::User)
    ensures
        shown == user,
{
    user
}

} // verus!
