//! What is reported of the state of an index.

pub mod health;
