//! The envelopes of replies.

use vstd::prelude::*;

verus! {

/// A reply that carries data.
pub struct Data<T> {
    pub data: T,
}

/// A reply that reports an error.
pub struct Error<'a> {
    pub message: &'a str,
}

} // verus!
