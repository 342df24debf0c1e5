//! The login decision logic and the bearer-token check: the composition of
//! the password and token components.
//!
//! Storage is a collaborator: the caller looks the user up by email and
//! hands the result in; the decision between `NotFound`, `WrongCredentials`
//! and a signed token is made — and proved — here. A storage fault is
//! propagated as its own error, never conflated with wrong credentials.

use vstd::prelude::*;
use crate::password::PasswordRecord;
use crate::password::record_matches;
use crate::token::ClaimsView;
use crate::token::ServerSecret;
use crate::token::TokenClaims;
use crate::token::sign;
use crate::token::spec_sign;
use crate::token::spec_verify;

verus! {

/// A stored user row, as the storage collaborator returns it: the identity,
/// the password record, and plain timestamps in seconds since the Unix
/// epoch.
pub struct User {
    pub id: u64,
    pub firstname: String,
    pub lastname: String,
    pub email: String,
    pub password: PasswordRecord,
    pub created_at: i64,
    pub updated_at: Option<i64>,
}

/// The claims a user's token carries: the identity fields, never the
/// password record.
pub open spec fn claims_of(u: User) -> ClaimsView {
    ClaimsView { id: u.id, firstname: u.firstname@, lastname: u.lastname@, email: u.email@ }
}

/// The storage collaborator could not answer. Kept distinct from every
/// credential failure, so an outage is never reported as a bad login.
#[derive(Clone, Copy, Debug, PartialEq, Eq, Structural)]
pub struct StorageUnavailable;

/// The three terminal outcomes of one login attempt.
pub enum AuthOutcome {
    Token(String),
    WrongCredentials,
    NotFound,
}

/// The authenticated identity that a request carries once its bearer token
/// has verified.
pub struct AuthProvider(pub TokenClaims);

pub struct AuthApi;

impl AuthApi {
    /// Decides one login attempt. `lookup` is what storage answered for the
    /// submitted email: no matching user yields `NotFound`; a user whose
    /// record the password does not match yields `WrongCredentials`; a
    /// matching password yields a token signed over exactly that user's
    /// identity claims. A storage fault passes through unchanged.
    pub fn authenticate(
        &self,
        lookup: Result<Option<User>, StorageUnavailable>,
        password: &str,
        secret: &ServerSecret,
    ) -> (r: Result<AuthOutcome, StorageUnavailable>)
        ensures
            lookup is Err ==> r is Err,
            lookup matches Ok(o) ==> o is None ==> (r matches Ok(a) && a is NotFound),
            lookup matches Ok(o) ==> o matches Some(u) ==> !record_matches(
                password@,
                u.password.text@,
            ) ==> (r matches Ok(a) && a is WrongCredentials),
            lookup matches Ok(o) ==> o matches Some(u) ==> record_matches(
                password@,
                u.password.text@,
            ) ==> (r matches Ok(a) && a matches AuthOutcome::Token(t) && t@ == spec_sign(
                claims_of(u),
                secret@,
            )),
    {
        match lookup {
            Err(e) => Err(e),
            Ok(None) => Ok(AuthOutcome::NotFound),
            Ok(Some(u)) => {
                if crate::password::verify(password, &u.password) {
                    let claims = TokenClaims {
                        id: u.id,
                        firstname: u.firstname.clone(),
                        lastname: u.lastname.clone(),
                        email: u.email.clone(),
                    };
                    proof {
                        assert(claims@ =~= claims_of(u));
                    }
                    Ok(AuthOutcome::Token(sign(&claims, secret)))
                } else {
                    Ok(AuthOutcome::WrongCredentials)
                }
            },
        }
    }
}

/// The bearer-token check run before a protected handler: yields the
/// authenticated identity exactly when the presented token verifies under
/// the server's secret, and nothing otherwise.
pub fn api_checker(token: &str, secret: &ServerSecret) -> (r: Option<AuthProvider>)
    ensures
        r matches Some(a) ==> spec_verify(token@, secret@) == Some(a.0@),
        r is None ==> spec_verify(token@, secret@) is None,
{
    match crate::token::verify(token, secret) {
        Ok(c) => Some(AuthProvider(c)),
        Err(_) => None,
    }
}

} // verus!
