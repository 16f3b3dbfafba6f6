//! Plain data records of the service around the engine: the application
//! state handed to request handlers, a registration request, and a stored
//! user account. The engine itself never reads them; they carry no logic
//! beyond the registration check.

use vstd::prelude::*;

verus! {

/// The state a request handler receives.
#[derive(Debug)]
pub struct AppState {
    pub htmlstring: String,
}

/// The payload of a registration request.
#[derive(Debug)]
pub struct RegistrationData {
    pub email: String,
}

/// A stored user account. A pending registration key means the user has not
/// completed registration yet.
#[derive(Debug)]
pub struct User {
    pub id: i64,
    pub name: String,
    pub hashwd: String,
    pub salt: String,
    pub email: String,
    pub registration_key: Option<String>,
}

impl User {
    /// Whether the account has completed registration: true exactly when no
    /// registration key is pending.
    pub fn is_registered(&self) -> (r: bool)
        ensures
            r == (self.registration_key is None),
    {
        match &self.registration_key {
            Some(_) => false,
            None => true,
        }
    }
}

} // verus!
