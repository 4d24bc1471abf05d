//! Images in an object store.

pub mod imagebackend;
