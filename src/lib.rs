//! Path-addressable YAML value trees: dot-path resolution, in-place
//! mutation, merge-tag parsing and overlay merging, all verified.
pub mod value;
pub mod text;
pub mod error;
pub mod path;
pub mod tag;
pub mod query;
pub mod mutation;
pub mod policy;
pub mod merge;
pub mod laws;
pub mod cli;
pub mod wellformed;
