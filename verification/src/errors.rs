//! The error taxonomy of the service and its mapping to HTTP statuses.

use vstd::prelude::*;

verus! {

/// Every failure the core can report, one variant per cause:
/// a request without the bearer-token header, a token the identity
/// provider did not accept (or the provider being unreachable), a lookup
/// that matched no row, a persistence-layer fault, and a malformed input
/// body.
#[derive(Clone, Copy, Debug, PartialEq, Eq, Structural)]
pub enum Error {
    MissingCredential,
    InvalidToken,
    NotFound,
    StorageFailure,
    ValidationFailure,
}

impl Error {
    /// The HTTP status code the error envelope is sent with:
    /// authorization failures are 401, a missing row is 404, malformed
    /// input is 400, and an internal persistence fault is 500.
    pub fn status_code(&self) -> (code: u16)
        ensures
            code == match self {
                Error::MissingCredential => 401u16,
                Error::InvalidToken => 401u16,
                Error::NotFound => 404u16,
                Error::StorageFailure => 500u16,
                Error::ValidationFailure => 400u16,
            },
    {
        match self {
            Error::MissingCredential => 401,
            Error::InvalidToken => 401,
            Error::NotFound => 404,
            Error::StorageFailure => 500,
            Error::ValidationFailure => 400,
        }
    }

    /// The human-readable message carried in the `{"error": ...}` envelope.
    pub fn message(&self) -> (msg: String)
        ensures
            msg@ == match self {
                Error::MissingCredential => "Fail authentication missing Supabase-Auth-Token header."@,
                Error::InvalidToken => "Fail authentication invalid token."@,
                Error::NotFound => "Entity not found."@,
                Error::StorageFailure => "Storage operation failed."@,
                Error::ValidationFailure => "Invalid request body."@,
            },
    {
        match self {
            Error::MissingCredential => {
                "Fail authentication missing Supabase-Auth-Token header.".to_owned()
            },
            Error::InvalidToken => "Fail authentication invalid token.".to_owned(),
            Error::NotFound => "Entity not found.".to_owned(),
            Error::StorageFailure => "Storage operation failed.".to_owned(),
            Error::ValidationFailure => "Invalid request body.".to_owned(),
        }
    }
}

/// What the HTTP boundary renders a failed request into: an error-class
/// tag and the human-readable message of the `{"error": ...}` envelope.
#[derive(Debug)]
pub struct WebErrorMessage {
    pub typ: &'static str,
    pub message: String,
}

impl WebErrorMessage {
    /// Bundle an error-class tag with a message, exactly as given.
    pub fn rejection(typ: &'static str, message: String) -> (r: WebErrorMessage)
        ensures
            r.typ@ == typ@,
            r.message@ == message@,
    {
        WebErrorMessage { typ, message }
    }

    /// The envelope for one core error: its message under the service's
    /// single error-class tag.
    pub fn of_error(e: &Error) -> (r: WebErrorMessage)
        ensures
            r.typ@ == "core::Error"@,
            r.message@ == match e {
                Error::MissingCredential => "Fail authentication missing Supabase-Auth-Token header."@,
                Error::InvalidToken => "Fail authentication invalid token."@,
                Error::NotFound => "Entity not found."@,
                Error::StorageFailure => "Storage operation failed."@,
                Error::ValidationFailure => "Invalid request body."@,
            },
    {
        WebErrorMessage { typ: "core::Error", message: e.message() }
    }
}

} // verus!
