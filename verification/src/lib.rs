//! Client-side connection and membership layer for a replicated,
//! single-leader data store cluster.
//!
//! The crate provides a versioned, validated registry of cluster member
//! records (`store`), an address grammar shared by the registry and the
//! dialer (`addr`), a durable text snapshot format for the registry
//! (`snapshot`), a SQL-backed registry variant (`sqlstore`), an
//! immutable connection policy object (`config`), and a connector that
//! resolves and dials the current leader under a retry/backoff policy
//! (`connector`).

pub mod addr;
pub mod config;
pub mod connector;
pub mod snapshot;
pub mod sqlstore;
pub mod store;
