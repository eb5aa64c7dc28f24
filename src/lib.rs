//! Dependency linking for the `solc --standard-json` output of the legacy
//! assembly pipeline: content hashing of assembly trees, resolution of data
//! aliases to fully qualified contract paths, and assembly of the project.

pub mod path_map;
pub mod hashing;
pub mod assembly;
pub mod linking;
pub mod output;
pub mod project;
pub mod laws;
