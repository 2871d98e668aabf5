//! The workspace: where it lies, how it is configured and what is indexed.

pub mod config;
pub mod context;
pub mod error;
pub mod identity;
pub mod indexer;
pub mod util;
pub mod workspace;
pub mod workspace_state;
