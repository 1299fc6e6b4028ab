//! Role-based permission trees, their reconciliation against application
//! templates, and the read-mostly snapshots that serve them.
pub mod error;
pub mod roles;
pub mod reconcile;
pub mod store;
pub mod apps;
pub mod configs;
pub mod tokens;
pub mod dispatch;
pub mod users;
pub mod sessions;
