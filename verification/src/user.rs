//! User creation: the part of it the core owns is turning the submitted
//! password into a stored record. Persisting the row is the storage
//! collaborator's work and stays with the caller.

use vstd::prelude::*;
use crate::password::HashingError;
use crate::password::PasswordRecord;
use crate::password::record_matches;

verus! {

pub struct UserApi;

/// What is handed to storage for a new user: the identity fields as
/// submitted, and the freshly derived password record — never the plaintext
/// password.
pub struct NewUser {
    pub firstname: String,
    pub lastname: String,
    pub email: String,
    pub password: PasswordRecord,
}

impl UserApi {
    /// Prepares a new user for storage: derives a fresh salted record from
    /// the submitted password and keeps the identity fields as given. The
    /// stored record matches the submitted password and, being a PHC string
    /// (it begins with `$`), never equals a plaintext that is empty or does
    /// not begin with `$`.
    pub fn create_user(
        &self,
        firstname: String,
        lastname: String,
        email: String,
        password: &str,
    ) -> (r: Result<NewUser, HashingError>)
        ensures
            r matches Ok(nu) ==> nu.firstname@ == firstname@ && nu.lastname@ == lastname@
                && nu.email@ == email@ && record_matches(password@, nu.password.text@)
                && nu.password.text@.len() > 0 && nu.password.text@[0] == '$',
            r matches Ok(nu) ==> (password@.len() == 0 || password@[0] != '$')
                ==> nu.password.text@ != password@,
    {
        match crate::password::hash(password) {
            Ok(rec) => Ok(
                NewUser { firstname, lastname, email, password: rec },
            ),
            Err(e) => Err(e),
        }
    }
}

} // verus!
