//! Pages of a listing.

use vstd::prelude::*;
use super::ListedRecipe;

pub mod cursor;

verus! {

/// One page of listed recipes, with the position to go on from if the page
/// was full.
#[derive(Debug, Clone)]
pub struct Recipe {
    pub items: Vec<ListedRecipe>,
    pub next: Option<cursor::Recipe>,
}

/// One page of a bulk export for indexing, with the position to go on from if
/// the page was full.
#[derive(Debug, Clone)]
pub struct DumpedIndexableRecipe {
    pub items: Vec<super::DumpedIndexableRecipe>,
    pub next: Option<cursor::DumpedIndexableRecipe>,
}

} // verus!
