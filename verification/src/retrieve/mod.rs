//! Indexing and search: chunkers, documents, queries and index back ends.

pub mod chunker;
pub mod config;
pub mod db;
pub mod embed;
pub mod error;
pub mod grouping;
pub mod json_chunker;
pub mod lance_vectors;
pub mod lancedb_store;
pub mod patterns;
pub mod retrieve_store;
pub mod sqlite_store;
pub mod titled;
pub mod vector_store;
