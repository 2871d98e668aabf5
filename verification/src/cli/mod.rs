//! The decisions of the command-line program.

pub mod config;
pub mod device;
pub mod device_lines;
pub mod info;
pub mod mcp;
pub mod watch;
