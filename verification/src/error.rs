use vstd::prelude::*;

verus! {

/// The failure kinds the service reports.
///
/// `InvalidInput` is caller-correctable (for example an empty title);
/// `NotFound` means the target id matched no row; `DuplicateUsername` is a
/// registration against a taken name; `InvalidCredentials` covers both an
/// unknown username and a wrong password, so that a caller cannot probe
/// which usernames exist; `HashingFailure` and `StoreUnavailable` are
/// internal faults whose detail stays on the server side.
#[derive(Clone, Copy, Debug, PartialEq, Eq, Structural)]
pub enum ServiceError {
    InvalidInput,
    NotFound,
    DuplicateUsername,
    InvalidCredentials,
    HashingFailure,
    StoreUnavailable,
}

impl ServiceError {
    /// A generic, non-revealing description for the transport boundary.
    /// Both kinds of credential failure share one message, and both kinds
    /// of internal fault surface the same words with no detail.
    pub fn message(&self) -> (r: &'static str)
        ensures
            r@ == match *self {
                ServiceError::InvalidInput => "invalid input"@,
                ServiceError::NotFound => "not found"@,
                ServiceError::DuplicateUsername => "username already taken"@,
                ServiceError::InvalidCredentials => "invalid credentials"@,
                ServiceError::HashingFailure => "internal error"@,
                ServiceError::StoreUnavailable => "internal error"@,
            },
    {
        match self {
            ServiceError::InvalidInput => "invalid input",
            ServiceError::NotFound => "not found",
            ServiceError::DuplicateUsername => "username already taken",
            ServiceError::InvalidCredentials => "invalid credentials",
            ServiceError::HashingFailure => "internal error",
            ServiceError::StoreUnavailable => "internal error",
        }
    }
}

} // verus!
