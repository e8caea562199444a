use argon2::password_hash::{PasswordHasher, SaltString};
use argon2::Argon2;
use shoplist::auth::{credentials, get_user_from_session, hash_of, session_hash, to_hex, AuthError};
use shoplist::handler::auth::{
    check_password, create_session, decide_login, session_from, AuthType, Credentials, LoginError,
    SESSION_NANOS,
};
use shoplist::store::user::{LookupFailed, User};

const ABC_DIGEST: &str = "ba7816bf8f01cfea414140de5dae2223b00361a396177a9cb410ff61f20015ad";
const EMPTY_DIGEST: &str = "e3b0c44298fc1c149afbf4c8996fb92427ae41e4649b934ca495991b7852b855";

fn account(password_hash: &str) -> User {
    User {
        id: 7,
        username: "ana".to_string(),
        password_hash: password_hash.to_string(),
        created_at: 1,
        updated_at: 2,
    }
}

fn attempt(password: &str) -> Credentials {
    Credentials {
        auth_type: AuthType::Web,
        username: "ana".to_string(),
        password: password.to_string(),
    }
}

#[test]
fn hex_has_two_lower_case_digits_for_each_byte() {
    assert_eq!(to_hex(&[]), "");
    assert_eq!(to_hex(&[0x00, 0x0f, 0xa0, 0xff, 0x1b]), "000fa0ff1b");
}

#[test]
fn session_key_is_the_digest_of_the_decoded_token() {
    assert_eq!(session_hash("YWJj").unwrap(), ABC_DIGEST);
    assert_eq!(session_hash("").unwrap(), EMPTY_DIGEST);
    assert_eq!(hash_of(b"abc"), ABC_DIGEST);
    assert_eq!(session_hash("-_8").unwrap(), hash_of(&[0xfb, 0xff]));
}

#[test]
fn a_token_that_is_no_base64_has_no_key() {
    assert!(session_hash("not base64!").is_none());
    assert!(session_hash("YWJj=").is_none());
    assert!(session_hash("+/8").is_none());
}

#[test]
fn credentials_come_from_the_session_cookie() {
    assert_eq!(credentials(None), Err(AuthError::MissingCredentials));
    assert_eq!(credentials(Some("***")), Err(AuthError::InvalidCredentials));
    assert_eq!(credentials(Some("YWJj")), Ok(ABC_DIGEST.to_string()));
}

#[test]
fn the_caller_is_the_account_of_the_session() {
    let user = get_user_from_session(Ok(Some(account("h"))), "key".to_string()).ok().unwrap();
    assert_eq!((user.id, user.username.as_str(), user.session_hash.as_str()), (7, "ana", "key"));
    assert_eq!((user.created_at, user.updated_at), (1, 2));
    assert_eq!(
        get_user_from_session(Ok(None), "key".to_string()).err(),
        Some(AuthError::InvalidCredentials)
    );
    assert_eq!(
        get_user_from_session(Err(LookupFailed), "key".to_string()).err(),
        Some(AuthError::Internal)
    );
}

#[test]
fn auth_errors_become_problems() {
    let invalid = AuthError::InvalidCredentials.problem();
    assert_eq!((invalid.status, invalid.message.as_str()), (401, "Invalid credentials"));
    let missing = AuthError::MissingCredentials.problem();
    assert_eq!((missing.status, missing.message.as_str()), (401, "Missing credentials"));
    let internal = AuthError::Internal.problem();
    assert_eq!((internal.status, internal.message.as_str()), (500, "Internal Server Error"));
    let invalid = LoginError::InvalidCredentials.problem();
    assert_eq!((invalid.status, invalid.message.as_str()), (401, "Invalid credentials"));
    let internal = LoginError::Internal.problem();
    assert_eq!((internal.status, internal.message.as_str()), (500, "Internal Server Error"));
}

#[test]
fn login_is_decided_from_lookup_and_verdict() {
    assert_eq!(decide_login(&Ok(Some(account("h"))), Some(true)), Ok(7));
    assert_eq!(
        decide_login(&Ok(Some(account("h"))), Some(false)),
        Err(LoginError::InvalidCredentials)
    );
    assert_eq!(decide_login(&Ok(Some(account("h"))), None), Err(LoginError::Internal));
    assert_eq!(decide_login(&Ok(None), Some(true)), Err(LoginError::InvalidCredentials));
    assert_eq!(decide_login(&Err(LookupFailed), Some(true)), Err(LoginError::Internal));
}

#[test]
fn the_password_is_checked_against_the_stored_hash() {
    let salt = SaltString::encode_b64(b"some fixed salt").unwrap();
    let stored = Argon2::default().hash_password(b"correct horse", &salt).unwrap().to_string();
    assert_eq!(check_password(Ok(Some(account(&stored))), &attempt("correct horse")), Ok(7));
    assert_eq!(
        check_password(Ok(Some(account(&stored))), &attempt("wrong horse")),
        Err(LoginError::InvalidCredentials)
    );
    assert_eq!(
        check_password(Ok(Some(account(&stored))), &attempt(&stored)),
        Err(LoginError::InvalidCredentials)
    );
    assert_eq!(
        check_password(Ok(Some(account("correct horse"))), &attempt("correct horse")),
        Err(LoginError::Internal)
    );
    assert_eq!(check_password(Ok(None), &attempt("correct horse")), Err(LoginError::InvalidCredentials));
    assert_eq!(check_password(Err(LookupFailed), &attempt("x")), Err(LoginError::Internal));
}

#[test]
fn a_session_encodes_its_secret_and_lasts_thirty_days() {
    let issued = session_from(b"abc", 1_000);
    assert_eq!(issued.session.session, "YWJj");
    assert_eq!(issued.session.expires_at, 1_000 + 30 * 24 * 60 * 60 * 1_000_000_000);
    assert_eq!(SESSION_NANOS, 2_592_000_000_000_000);
    assert_eq!(issued.session_hash, ABC_DIGEST);
    let issued = session_from(&[0xfb, 0xff], 0);
    assert_eq!(issued.session.session, "-_8");
}

#[test]
fn a_new_session_has_a_fresh_secret_of_64_bytes() {
    let first = create_session(5).ok().unwrap();
    let second = create_session(5).ok().unwrap();
    assert_eq!(first.session.session.len(), 86);
    assert_eq!(first.session.expires_at, 5 + SESSION_NANOS);
    assert_eq!(first.session_hash.len(), 64);
    assert_ne!(first.session.session, second.session.session);
    assert_eq!(session_hash(&first.session.session).unwrap(), first.session_hash);
    assert_eq!(create_session(i128::MAX).err(), Some(LoginError::Internal));
}
