//! Users as the storage engine sees them.

use vstd::prelude::*;

pub use super::id::Id;

verus! {

/// A user whose identity has been established.
#[derive(Debug, Clone)]
pub struct Authenticated {
    pub id: String,
}

} // verus!
