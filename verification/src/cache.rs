//! The cache as its callers see it: its errors and the requests that its
//! worker serves.

use vstd::prelude::*;

verus! {

/// Why an operation of the cache failed.
#[derive(Debug)]
pub enum Error {
    /// No item is cached under the key, or the item has expired.
    NoMatchingValue,
    /// No worker of the cache was free.
    NoConnections,
    /// A value could not be written or read as text.
    Serialization(String),
    /// Anything else; the message says what.
    Unknown(String),
}

/// A request to the worker of the cache. Times are seconds since the Unix
/// epoch.
#[derive(Debug)]
pub enum CacheMessage {
    Health,
    Get { key: String },
    Remove { key: String },
    Put { key: String, value: String, expires_at: i64 },
}

/// The reply of the worker of the cache to a request.
#[derive(Debug)]
pub enum CacheReply {
    Done(Result<(), Error>),
    Value(Result<String, Error>),
}

} // verus!
