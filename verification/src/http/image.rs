//! Images as replies carry them.

use vstd::prelude::*;
use vstd::string::*;
use crate::text::{concat3, same_text};

verus! {

/// How long a caller may keep an image: images never change.
pub fn cache_control() -> (value: &'static str)
    ensures
        value@ == "private, immutable, max-age=31536000"@,
{
    "private, immutable, max-age=31536000"
}

/// The tag under which a caller keeps the image `id`.
pub open spec fn etag_of(id: Seq<char>) -> Seq<char> {
    "\""@ + id + "\""@
}

/// The tag under which a caller keeps the image `id`.
pub fn etag(id: &str) -> (tag: String)
    ensures
        tag@ == etag_of(id@),
{
    concat3("\"", id, "\"")
}

/// Whether a caller that presents the tag `if_none_match` has the image `id`
/// already, so that it need not be sent again.
pub fn is_not_modified(if_none_match: Option<&str>, id: &str) -> (kept: bool)
    ensures
        kept == (if_none_match matches Some(presented) && presented@ == etag_of(id@)),
{
    match if_none_match {
        Some(presented) => same_text(presented, etag(id).as_str()),
        None => false,
    }
}

} // verus!
