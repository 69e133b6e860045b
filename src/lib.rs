//! Select, read and aggregate file contents under one or more roots.
//!
//! The library holds the decisions of the engine: the include/exclude
//! filter, the deduplication by canonical identity, the aggregation of fenced
//! blocks with their token estimates, and the rendering of the directory tree.
//! Walking the file system and reading files is left to the caller, which
//! hands the library plain values: paths, identities, texts and walk entries.

mod text;

pub mod builder;
pub mod error;
pub mod numfmt;
pub mod order;
pub mod paths;
pub mod patterns;
pub mod processor;
pub mod tokens;
pub mod tree;

pub use builder::CflBuilder;
pub use error::CflError;
pub use numfmt::format_number;
pub use processor::{FileInfo, FileProcessor};
pub use tokens::estimate_tokens;
pub use tree::{directory_tree, WalkEntry};
