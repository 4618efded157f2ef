//! Symbol navigation engine for a multi-language code editor.
//!
//! The crate maintains an in-memory index of symbol definitions extracted
//! from source files, answers definition and reference queries scoped by
//! language family, and prepares versioned snapshots of the index for
//! persistence.

pub mod text;
pub mod vecmap;
pub mod lang;
pub mod persist;
pub mod refsearch;
pub mod scripts;
pub mod syntree;
pub mod constants;
pub mod dirtree;
pub mod engine;
pub mod gitmodel;
pub mod indexer;
pub mod symbols;
