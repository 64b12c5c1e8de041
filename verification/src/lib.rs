//! Content versioning and reading-position continuity engine for a
//! single-book reading site.
//!
//! The library parses raw plain text into an ordered sequence of typed
//! content blocks, stores successive immutable revisions of those blocks,
//! and remaps a reader's saved position from an old revision to a new one
//! using content fingerprints, falling back through a tiered matching
//! strategy.

pub mod error;
pub mod text;
pub mod bytes;
pub mod content;
pub mod fingerprint;
pub mod store;
pub mod resolver;
pub mod pager;
pub mod auth;
pub mod models;
pub mod routes;
