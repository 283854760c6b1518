//! Scans a modelled directory tree for Cargo project roots and aggregates the
//! disk usage of their build-artifact (`target`) directories.
//!
//! The library works on an in-memory snapshot of a directory tree ([`tree::FsNode`]);
//! reading the real file system, prompting, and running the clean command are left
//! to the surrounding program.

pub mod finder;
pub mod prompt;
pub mod tree;
pub mod usage;
