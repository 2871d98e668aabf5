//! Synchronisation between devices: the device registry, and the decisions of
//! the git back end.

pub mod backend;
pub mod config;
pub mod devices;
pub mod error;
pub mod git_sync;
