//! The primitives that sessions and passwords rest on. None of them is proved
//! here: each function calls its library and states what is assumed of it.

use argon2::Argon2;
use base64::prelude::{Engine, BASE64_URL_SAFE_NO_PAD};
use password_hash::{PasswordHash, PasswordVerifier};
use rand::rngs::OsRng;
use rand::TryRngCore;
use sha2::{Digest, Sha256};
use vstd::prelude::*;

verus! {

/// The bytes that a text stands for in URL-safe base64 without padding, or
/// nothing where the text is not such an encoding.
pub uninterp spec fn base64_decoded(text: Seq<char>) -> Option<Seq<u8>>;

/// The URL-safe base64 text, without padding, of the bytes.
pub uninterp spec fn base64_encoded(bytes: Seq<u8>) -> Seq<char>;

/// The SHA-256 digest of the bytes.
pub uninterp spec fn sha256_of(bytes: Seq<u8>) -> Seq<u8>;

/// Whether the password is the one that the stored hash, a PHC string, was
/// made from, by Argon2 with the parameters that the hash names; nothing
/// where the stored text is no PHC string.
pub uninterp spec fn password_verdict(password: Seq<char>, stored: Seq<char>) -> Option<bool>;

/// Calls `Engine::decode` of base64 on the engine `URL_SAFE_NO_PAD`. Assumed:
/// the result depends on the text alone; a refused text gives nothing.
#[verifier::external_body]
pub(crate) fn decode_base64(text: &str) -> (decoded: Option<Vec<u8>>)
    ensures
        (decoded is Some) == (base64_decoded(text@) is Some),
        decoded matches Some(bytes) ==> base64_decoded(text@) == Some(bytes@),
{
    match BASE64_URL_SAFE_NO_PAD.decode(text) {
        Ok(bytes) => Some(bytes),
        Err(_) => None,
    }
}

/// Calls `Engine::encode` of base64 on the engine `URL_SAFE_NO_PAD`. Assumed:
/// the result depends on the bytes alone. The bound keeps the length of the
/// text within `usize`, beyond which the call panics.
#[verifier::external_body]
pub(crate) fn encode_base64(bytes: &[u8]) -> (text: String)
    requires
        bytes@.len() <= 0x3000_0000,
    ensures
        text@ == base64_encoded(bytes@),
{
    BASE64_URL_SAFE_NO_PAD.encode(bytes)
}

/// Calls `Sha256::digest` of sha2. Assumed: the result depends on the bytes
/// alone and is 32 bytes long, the output size of SHA-256.
#[verifier::external_body]
pub(crate) fn sha256(bytes: &[u8]) -> (digest: Vec<u8>)
    ensures
        digest@ == sha256_of(bytes@),
        digest@.len() == 32,
{
    Sha256::digest(bytes).to_vec()
}

/// Calls `OsRng::try_fill_bytes` of rand on 64 bytes. Assumed: where the
/// system gives random bytes there are 64 of them; nothing is known of what
/// they hold, and two calls may differ.
#[verifier::external_body]
pub(crate) fn random_bytes() -> (bytes: Option<Vec<u8>>)
    ensures
        bytes matches Some(filled) ==> filled@.len() == 64,
{
    let mut filled = [0u8; 64];
    match OsRng.try_fill_bytes(&mut filled) {
        Ok(()) => Some(filled.to_vec()),
        Err(_) => None,
    }
}

/// Parses the stored hash with `PasswordHash::new` of password-hash and calls
/// `PasswordVerifier::verify_password` on `Argon2::default()` of argon2.
/// Assumed: the result depends on the two texts alone; a stored text that
/// does not parse gives nothing, a password that is refused gives `false`.
#[verifier::external_body]
pub(crate) fn verify_password(password: &str, stored: &str) -> (verdict: Option<bool>)
    ensures
        verdict == password_verdict(password@, stored@),
{
    match PasswordHash::new(stored) {
        Ok(hash) => Some(Argon2::default().verify_password(password.as_bytes(), &hash).is_ok()),
        Err(_) => None,
    }
}

} // verus!
