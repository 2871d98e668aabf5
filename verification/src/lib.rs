//! A notes-workspace toolkit: text chunking, a retrieval index, device
//! registry, git synchronisation decisions and the workspace around them.

pub mod cli;
pub mod double;
pub mod ids;
pub mod json;
pub mod number;
pub mod order;
pub mod paths;
pub mod places;
pub mod retrieve;
pub mod seqs;
pub mod sync;
pub mod text;
pub mod workspace;
