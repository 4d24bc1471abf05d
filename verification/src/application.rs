//! What the application does with the stores: the errors that it reports and
//! the decisions that it takes between one call of a store and the next.

use vstd::prelude::*;
use crate::domain;

pub mod image;
pub mod recipe;
pub mod session;
pub mod user;

verus! {

/// Why an operation of the application failed.
#[derive(Debug)]
pub enum Error {
    /// What was asked for does not exist; the message names it.
    NotFound(String),
    /// The caller has no valid session.
    Unauthenticated(String),
    /// The request is not a valid one.
    Invalid(String),
    /// A value of the request was rejected by a validated domain type.
    DomainValidation(domain::ValidationError),
    /// Anything else; the message says what.
    Other(String),
}

} // verus!
