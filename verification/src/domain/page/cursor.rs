//! Positions in a listing: the sort key of the last item of a page.

use vstd::prelude::*;

verus! {

/// The position after a page of listed recipes: the identifier and the title
/// of its last item.
#[derive(Debug, Clone)]
pub struct Recipe {
    pub id: String,
    pub name: String,
}

/// The position after a page of a bulk export: the identifier of its last
/// item.
#[derive(Debug, Clone)]
pub struct DumpedIndexableRecipe {
    pub id: String,
}

} // verus!
