//! Filters for listing.

use vstd::prelude::*;

verus! {

/// Which recipes a listing keeps: those whose title contains `name`, if it is
/// given, and that carry every tag of `tag_ids`.
#[derive(Debug, Clone)]
pub struct Recipe {
    pub name: Option<String>,
    pub tag_ids: Vec<super::tag::Id>,
}

} // verus!
