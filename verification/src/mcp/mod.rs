//! The server's settings, and what its tools for the runtime ask for.

pub mod defaults;
pub mod runtime;
