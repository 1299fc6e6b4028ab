//! What can go wrong.
use vstd::prelude::*;

verus! {

/// A failed lookup or operation.
#[derive(Debug, PartialEq, Eq, Structural)]
pub enum UmtError {
    /// A path or a name names nothing.
    NotFound,
    /// The backing store could not be scanned.
    StoreUnavailable,
    /// No role has the given id.
    RoleNotFound,
    /// The application a role refers to does not exist.
    AppNotFound,
    /// The named configuration is missing or of another kind.
    GetConfig,
    /// A session token is missing or malformed.
    InvalidToken,
    /// A password could not be hashed.
    PasswordHash,
    /// The user is unknown or the password does not match.
    InvalidCredentials,
    /// No user has the given name.
    InvalidUsername,
    /// The user is disabled.
    DisabledUser,
    /// The user has no password set yet.
    UninitializedPassword,
}

impl UmtError {
    /// The numeric code a client is given for this error, where it has one.
    pub fn code_number(&self) -> (r: Option<u8>)
        ensures
            r == (if *self == UmtError::InvalidToken { Some(1u8) } else { None }),
    {
        match self {
            UmtError::InvalidToken => Some(1),
            _ => None,
        }
    }
}

} // verus!
