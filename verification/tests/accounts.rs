use argon2::password_hash::{PasswordHasher, SaltString};
use argon2::Argon2;
use shoplist::auth::{authenticate, hash_of, AuthError};
use shoplist::db::DbError;
use shoplist::handler::auth::{login, logout, me, AuthType, Credentials, LoginError, SESSION_NANOS};
use shoplist::store::user::{
    create_session, create_user, delete_session, get_session, get_user, Accounts,
};

fn with_ana() -> Accounts {
    let mut accounts = Accounts::new();
    create_user(&mut accounts, "ana", "hash of ana", 1).unwrap();
    create_user(&mut accounts, "bor", "hash of bor", 2).unwrap();
    accounts
}

fn stored(password: &str) -> String {
    let salt = SaltString::encode_b64(b"some fixed salt").unwrap();
    Argon2::default().hash_password(password.as_bytes(), &salt).unwrap().to_string()
}

fn attempt(username: &str, password: &str) -> Credentials {
    Credentials {
        auth_type: AuthType::Web,
        username: username.to_string(),
        password: password.to_string(),
    }
}

#[test]
fn accounts_get_ids_in_order() {
    let accounts = with_ana();
    let ana = get_user(&accounts, "ana").unwrap();
    assert_eq!((ana.id, ana.password_hash.as_str(), ana.created_at, ana.updated_at), (1, "hash of ana", 1, 1));
    assert_eq!(get_user(&accounts, "bor").unwrap().id, 2);
    assert!(get_user(&accounts, "cene").is_none());
    assert_eq!(accounts.last_user_id, 2);
}

#[test]
fn a_taken_name_is_refused() {
    let mut accounts = with_ana();
    assert_eq!(create_user(&mut accounts, "ana", "other", 3), Err(DbError::Constraint));
    assert_eq!(accounts.users.len(), 2);
    assert_eq!(get_user(&accounts, "ana").unwrap().password_hash, "hash of ana");
    accounts.last_user_id = i64::MAX;
    assert_eq!(create_user(&mut accounts, "cene", "x", 3), Err(DbError::OutOfRange));
    assert_eq!(create_user(&mut accounts, "ana", "x", 3), Err(DbError::Constraint));
}

#[test]
fn a_session_is_found_until_it_ends() {
    let mut accounts = with_ana();
    create_session(&mut accounts, 2, "key", 100, 10).unwrap();
    assert_eq!(get_session(&accounts, "key", 99).unwrap().username, "bor");
    assert!(get_session(&accounts, "key", 100).is_none());
    assert!(get_session(&accounts, "key", 101).is_none());
    assert!(get_session(&accounts, "other", 50).is_none());
    create_session(&mut accounts, 1, "key", 200, 10).unwrap();
    assert_eq!(get_session(&accounts, "key", 50).unwrap().username, "bor");
    assert_eq!(get_session(&accounts, "key", 150).unwrap().username, "ana");
}

#[test]
fn a_session_needs_its_account() {
    let mut accounts = with_ana();
    assert_eq!(create_session(&mut accounts, 9, "key", 100, 10), Err(DbError::Constraint));
    assert!(accounts.sessions.is_empty());
}

#[test]
fn deleting_a_session_removes_all_under_its_key() {
    let mut accounts = with_ana();
    create_session(&mut accounts, 1, "a", 100, 10).unwrap();
    create_session(&mut accounts, 2, "b", 100, 10).unwrap();
    create_session(&mut accounts, 2, "a", 100, 10).unwrap();
    delete_session(&mut accounts, "a");
    let left: Vec<&str> = accounts.sessions.iter().map(|s| s.session_hash.as_str()).collect();
    assert_eq!(left, vec!["b"]);
    delete_session(&mut accounts, "none");
    assert_eq!(accounts.sessions.len(), 1);
}

#[test]
fn the_caller_is_found_by_the_token() {
    let mut accounts = with_ana();
    create_session(&mut accounts, 2, &hash_of(b"abc"), 100, 10).unwrap();
    let user = authenticate(&accounts, Some("YWJj"), 50).ok().unwrap();
    assert_eq!((user.id, user.username.as_str()), (2, "bor"));
    assert_eq!(user.session_hash, hash_of(b"abc"));
    assert_eq!((user.created_at, user.updated_at), (2, 2));
    assert_eq!(authenticate(&accounts, Some("YWJj"), 100).err(), Some(AuthError::InvalidCredentials));
    assert_eq!(authenticate(&accounts, Some("YWJk"), 50).err(), Some(AuthError::InvalidCredentials));
    assert_eq!(authenticate(&accounts, Some("%"), 50).err(), Some(AuthError::InvalidCredentials));
    assert_eq!(authenticate(&accounts, None, 50).err(), Some(AuthError::MissingCredentials));
}

#[test]
fn login_stores_a_session_that_authenticates() {
    let mut accounts = Accounts::new();
    create_user(&mut accounts, "ana", &stored("correct horse"), 1).unwrap();
    let session = login(&mut accounts, &attempt("ana", "correct horse"), 1_000).ok().unwrap();
    assert_eq!(session.expires_at, 1_000 + SESSION_NANOS);
    assert_eq!(accounts.sessions.len(), 1);
    assert_eq!(accounts.sessions[0].user_id, 1);
    assert_eq!(accounts.sessions[0].expires_at, 1_000 + SESSION_NANOS);
    assert_eq!(accounts.sessions[0].created_at, 1_000);
    let user = authenticate(&accounts, Some(&session.session), 2_000).ok().unwrap();
    assert_eq!(user.username, "ana");
    assert_eq!(user.session_hash, accounts.sessions[0].session_hash);
    let shown = me(user);
    assert_eq!(shown.id, 1);
    logout(&mut accounts, &shown);
    assert!(accounts.sessions.is_empty());
    assert_eq!(
        authenticate(&accounts, Some(&session.session), 2_000).err(),
        Some(AuthError::InvalidCredentials)
    );
}

#[test]
fn a_refused_login_stores_nothing() {
    let mut accounts = Accounts::new();
    create_user(&mut accounts, "ana", &stored("correct horse"), 1).unwrap();
    create_user(&mut accounts, "bor", "no hash at all", 1).unwrap();
    assert_eq!(
        login(&mut accounts, &attempt("ana", "wrong horse"), 5).err(),
        Some(LoginError::InvalidCredentials)
    );
    assert_eq!(
        login(&mut accounts, &attempt("cene", "correct horse"), 5).err(),
        Some(LoginError::InvalidCredentials)
    );
    assert_eq!(login(&mut accounts, &attempt("bor", "x"), 5).err(), Some(LoginError::Internal));
    assert_eq!(
        login(&mut accounts, &attempt("ana", "correct horse"), i128::MAX).err(),
        Some(LoginError::Internal)
    );
    assert!(accounts.sessions.is_empty());
}
