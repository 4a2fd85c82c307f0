//! Core library of a backend service for working with large on-disk
//! archives and files: an opaque-handle resource registry for open
//! archive readers and writers, and a bounded-memory streaming
//! byte-pattern scanner, together with the small pieces of pure state
//! the surrounding application keeps (recent folders, log levels,
//! content digests).

pub mod archive;
pub mod digest;
pub mod errors;
pub mod file_support;
pub mod levels;
pub mod recent;
pub mod registry;
pub mod scanner;
pub mod vault;
pub mod zip_utils;
