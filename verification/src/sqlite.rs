//! The store itself: its tables, the operations on recipes, tags, images and
//! users, and the session store with its refresh lock.

pub mod database;
pub mod delta;
pub mod image;
pub mod integrity;
pub mod listing;
pub mod pool;
pub mod query;
pub mod recipe;
pub mod session_store;
pub mod tag;

pub use pool::handle;
pub use pool::DatastoreConfig;
pub use pool::DatastoreHandler;
