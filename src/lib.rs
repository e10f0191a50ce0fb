//! Structured diff statistics between two snapshots of a file tree.

pub mod display;
pub mod engine;
pub mod laws;
pub mod revision;
pub mod similarity;
pub mod text;
pub mod types;
