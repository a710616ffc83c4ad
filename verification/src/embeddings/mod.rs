//! Embeddings: which model makes them, in which batches, and how what it returns
//! is checked.

pub mod batching;
pub mod backend;
pub mod ep_census;
pub mod error;
pub mod generator;
pub mod kernel_cache;
