//! The user of a request, and the status under which an error is reported.

use vstd::prelude::*;
use vstd::string::*;
use crate::application::Error;
use crate::domain;

verus! {

/// The largest body of an upload, in bytes: ten mebibytes.
pub const MAX_IMAGE_BODY_SIZE: usize = 10485760;

/// How long a caller may keep a file of the user interface: two weeks.
pub fn static_cache_control() -> (value: &'static str)
    ensures
        value@ == "public, immutable, max-age=1209600"@,
{
    "public, immutable, max-age=1209600"
}

/// How long a caller may keep the entry page of the user interface: not at
/// all.
pub fn entry_cache_control() -> (value: &'static str)
    ensures
        value@ == "max-age=0, no-cache, must-revalidate"@,
{
    "max-age=0, no-cache, must-revalidate"
}

/// The user on whose behalf a request is served.
#[derive(Clone)]
pub struct AuthenticatedUser {
    pub id: String,
}

impl AuthenticatedUser {
    /// The user as the application knows it.
    pub fn into_authenticated(self) -> (user: domain::user::Authenticated)
        ensures
            user.id@ == self.id@,
    {
        domain::user::Authenticated { id: self.id }
    }
}

/// What a signed-in user is told about itself.
pub fn get_me(user: &AuthenticatedUser) -> (told: String)
    ensures
        told@ == "you are: "@ + user.id@,
{
    let mut told = String::from_str("you are: ");
    told.append(user.id.as_str());
    told
}

/// The status and the body under which an error is reported.
pub struct Reported {
    pub status: u16,
    pub body: String,
}

/// The status and the body under which an error is reported: what is not
/// found and what is not valid is told to the caller as it is, and of
/// everything else only that it happened.
pub fn report(error: &Error) -> (reported: Reported)
    ensures
        match *error {
            Error::NotFound(message) => reported.status == 404 && reported.body@ == message@,
            Error::Unauthenticated(_) => reported.status == 401 && reported.body@
                == "Unauthenticated."@,
            Error::DomainValidation(domain::ValidationError::Constraint(message)) => reported.status
                == 422 && reported.body@ == message@,
            Error::DomainValidation(domain::ValidationError::Format(message)) => reported.status
                == 422 && reported.body@ == message@,
            Error::Invalid(message) => reported.status == 422 && reported.body@ == message@,
            Error::Other(_) => reported.status == 500 && reported.body@ == "Internal error"@,
        },
{
    match error {
        Error::NotFound(message) => Reported { status: 404, body: message.clone() },
        Error::Unauthenticated(_) => Reported {
            status: 401,
            body: String::from_str("Unauthenticated."),
        },
        Error::DomainValidation(invalid) => Reported { status: 422, body: invalid.to_string() },
        Error::Invalid(message) => Reported { status: 422, body: message.clone() },
        Error::Other(_) => Reported { status: 500, body: String::from_str("Internal error") },
    }
}

} // verus!
