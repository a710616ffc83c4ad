//! The semantic service: which projects stay loaded, when they are refreshed, and
//! how what they answer is put in order.

pub mod loader;
pub mod lru_sweep;
pub mod navigation_laws;
pub mod position;
pub mod reference_laws;
pub mod service;
pub mod service_laws;
