//! Message types that are known only at run time.

pub mod laws;
pub mod loader;
pub mod registry;
pub mod schema;
