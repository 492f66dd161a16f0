//! Inlines a multi-file crate into one self-contained source text.
//!
//! The entry file's crate import is replaced by the library root, whose
//! `pub mod` declarations are expanded recursively into nested module blocks.
//! Imports of modules that were already inlined are dropped; other imports of
//! the crate are rewritten to local ones.
pub mod classify;
pub mod tree;
pub mod bundle;
pub mod laws;
