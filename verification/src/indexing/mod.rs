//! Which files are indexed, under which identity, and how failures are sorted.

pub mod error;
pub mod error_collection;
pub mod identity;
pub mod traversal;
