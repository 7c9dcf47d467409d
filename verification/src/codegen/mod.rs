//! Code generation from interface definitions: what is read, kept, resolved and
//! emitted.

pub mod config;
pub mod discover;
pub mod emit;
pub mod emit_laws;
pub mod filter;
pub mod group;
pub mod laws;
pub mod plan;
pub mod types;
