//! The Python bindings: what they decide.

pub mod laws;
pub mod service;
