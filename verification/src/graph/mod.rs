//! Which crates belong to the graph of a workspace.

pub mod loader;
