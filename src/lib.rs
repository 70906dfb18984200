//! A note store with a full-text search index kept in step with it, and
//! task ids drawn from an atomic counter.
//!
//! The store (sled) is the source of truth; the index (tantivy) is derived
//! from it, written after it, and can always be rebuilt from it.

pub mod cli;
pub mod counter;
pub mod db;
pub mod error;
pub mod index;
pub mod note;
pub mod notes;
pub mod search;
pub mod store;
pub mod sync;
pub mod text;
