//! Transform frames: messages, the transform buffer and lookups in it.

pub mod broadcast;
pub mod buffer;
pub mod laws;
pub mod listener;
pub mod lookup;
pub mod message;
pub mod time;
pub mod timeline;
