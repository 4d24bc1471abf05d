//! What travels between the application and its callers: the parameters of
//! requests, the bodies of replies, and the status under which an error is
//! reported.

pub mod auth;
pub mod image;
pub mod recipe;
pub mod responses;
pub mod server;
pub mod tag;
