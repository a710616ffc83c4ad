//! How well a search answers.

pub mod relevance;
