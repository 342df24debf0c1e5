//! Password hashing and verification (the PasswordHasher component).
//!
//! A password is turned into a self-describing record: a PHC-format string
//! holding the algorithm id, its parameters, a fresh random salt and the
//! derived hash. Verification re-derives the hash with the parameters and
//! salt embedded in the record, so old records keep verifying after the
//! default parameters change. The derivation itself is argon2's; this module
//! states what it guarantees and proves the logic around it.

use vstd::prelude::*;
use argon2::PasswordHasher as Argon2PasswordHasher;
use argon2::PasswordVerifier as Argon2PasswordVerifier;

verus! {

/// What argon2's PHC verification computes: whether `password`, hashed with
/// the parameters and salt embedded in `record`, yields the hash embedded in
/// `record`. A malformed record matches no password. The outcome depends on
/// the two arguments alone.
pub uninterp spec fn argon2_matches(password: Seq<char>, record: Seq<char>) -> bool;

/// Internal failure while deriving a password hash (for example the salt
/// generator failing); never caused by the password's content.
#[derive(Clone, Copy, Debug, PartialEq, Eq, Structural)]
pub struct HashingError;

/// A stored password hash: a PHC string, self-describing (algorithm id,
/// parameters, salt, hash), never the password itself.
pub struct PasswordRecord {
    pub text: String,
}

#[verifier::external_type_specification]
#[verifier::external_body]
pub struct ExPasswordHashError(argon2::password_hash::Error);

/// Relies on argon2: `Argon2::default().hash_password` over a fresh
/// `SaltString` drawn from the operating system's RNG returns a PHC string
/// (it begins with `$`, then the algorithm id) whose embedded parameters and
/// salt make the same password verify against it through
/// `PasswordVerifier::verify_password`. The record differs between calls
/// (fresh salt), so only what holds of every outcome is stated.
#[verifier::external_body]
fn argon2_hash_fresh_salt(password: &str) -> (r: Result<
    String,
    argon2::password_hash::Error,
>)
    ensures
        r matches Ok(rec) ==> argon2_matches(password@, rec@) && rec@.len() > 0 && rec@[0]
            == '$',
{
    let salt = argon2::password_hash::SaltString::generate(
        &mut argon2::password_hash::rand_core::OsRng,
    );
    match argon2::Argon2::default().hash_password(password.as_bytes(), &salt) {
        Ok(h) => Ok(h.to_string()),
        Err(e) => Err(e),
    }
}

/// Relies on argon2: `PasswordHash::new` parses a PHC string, and
/// `Argon2::default().verify_password` re-derives the hash with the
/// parameters and salt embedded in it and compares the result in constant
/// time. A record that does not parse matches no password; the outcome is a
/// function of the password and the record alone.
#[verifier::external_body]
fn argon2_verify(password: &str, record: &str) -> (r: bool)
    ensures
        r == argon2_matches(password@, record@),
{
    match argon2::PasswordHash::new(record) {
        Ok(parsed) => argon2::Argon2::default().verify_password(
            password.as_bytes(),
            &parsed,
        ).is_ok(),
        Err(_) => false,
    }
}

/// What `verify` returns: a wrong password and a malformed record are
/// indistinguishable to the caller, both answer `false`.
pub open spec fn record_matches(password: Seq<char>, record: Seq<char>) -> bool {
    argon2_matches(password, record)
}

/// Derives a fresh salted record from `password`. Fails only on an internal
/// fault of the derivation, never on the password's content.
pub fn hash(password: &str) -> (r: Result<PasswordRecord, HashingError>)
    ensures
        r matches Ok(rec) ==> record_matches(password@, rec.text@) && rec.text@.len() > 0
            && rec.text@[0] == '$',
{
    match argon2_hash_fresh_salt(password) {
        Ok(text) => Ok(PasswordRecord { text }),
        Err(_) => Err(HashingError),
    }
}

/// Checks `password` against a stored record. Returns `false` both for a
/// wrong password and for a malformed record; it never fails.
pub fn verify(password: &str, record: &PasswordRecord) -> (r: bool)
    ensures
        r == record_matches(password@, record.text@),
{
    argon2_verify(password, record.text.as_str())
}

/// A record freshly derived from a password verifies against that password:
/// `hash` ensures `record_matches` of its result, and `verify` returns
/// exactly `record_matches`.
pub proof fn lemma_hash_record_verifies(password: Seq<char>, record: Seq<char>)
    requires
        argon2_matches(password, record),
    ensures
        record_matches(password, record),
{
}

} // verus!
