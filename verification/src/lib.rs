//! Verified core of a ROS 2 over Zenoh toolkit.

pub mod codegen;
pub mod console;
pub mod dynamic;
pub mod names;
pub mod py;
pub mod text;
pub mod text_laws;
pub mod tf;
