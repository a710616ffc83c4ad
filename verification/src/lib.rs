//! The logic of a server that answers questions about Rust code.
//!
//! What the server decides and computes stands here, and every function says in its
//! contract what that is. Files, sockets, processes and the analysis itself are asked
//! outside: what they answer comes in as plain values, or through a function that is
//! handed in, and what is to be done with the answer comes out.

pub mod daemon;
pub mod deep_stack;
pub mod digest;
pub mod embeddings;
pub mod graph;
pub mod indexing;
pub mod mcp;
pub mod metadata_cache;
pub mod monitoring;
pub mod paths;
pub mod search;
pub mod semantic;
pub mod switches;
pub mod table;
pub mod text;
