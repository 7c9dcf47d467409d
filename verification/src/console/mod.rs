//! The console: what it shows, echoes and watches.

pub mod echo;
pub mod engine;
pub mod laws;
pub mod logger;
pub mod measure;
pub mod panel_laws;
