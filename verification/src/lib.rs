//! Converts parsed HTML into the source text of a brace-structured,
//! indentation-based template DSL (`tagname { ... }`, `."class"`, `#id`).
//!
//! The pipeline: an outside permissive HTML parser builds the document tree;
//! the tree is mirrored into the crate's own [`model::Node`] type; a recursive
//! emitter renders it as indented DSL text; and a three-pass text normalizer
//! collapses empty blocks, strips blank lines, and promotes ambiguous `#id`
//! shorthands to explicit `id="..."` attributes.

pub mod text;
pub mod model;
pub mod classify;
pub mod emit;
pub mod normalize;
pub mod convert;
pub mod laws;

pub use convert::{html2maud, ParseFailure};
