//! Storage engine core for a recipe manager.
//!
//! * [`datastore`]: recipe documents, the bytes they are stored as, the pool
//!   of workers and the policy by which a caller waits for one.
//! * [`sqlite`]: the tables of the store and of the session store, and the
//!   operations on them: creating and reading recipes, updating them under
//!   optimistic concurrency, reconstructing revisions from reverse deltas,
//!   listing by pages, and the self-expiring lock on the refresh of a session.
//! * [`domain`]: the validated vocabulary that the operations speak.
//! * [`application`], [`http`], [`oidc`], [`s3`], [`config`],
//!   [`image_processing`], [`cache`], [`inmem`]: what the server around the
//!   store decides between one call and the next.
//!
//! Every operation states what it returns and what it leaves behind over a
//! mathematical model of the tables; the theorems that relate the operations
//! stand next to them.

pub mod application;
pub mod cache;
pub mod config;
pub mod datastore;
pub mod domain;
pub mod http;
pub mod image_processing;
pub mod imagestore;
pub mod inmem;
pub mod oidc;
pub mod s3;
pub mod session_store;
pub mod sqlite;
pub mod text;
