//! Images attached to recipes.

pub use super::id::Id;
