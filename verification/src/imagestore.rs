//! The store of images as its callers see it.

use vstd::prelude::*;

verus! {

/// Why an operation of the image store failed.
#[derive(Debug)]
pub enum Error {
    /// There is no image under the path.
    NotFound(String),
    /// There is an image under the path already.
    DuplicatePath(String),
    /// The backend is not configured as it has to be; the message says how.
    Config(String),
    /// Anything else; the message says what.
    Other(String),
}

} // verus!
