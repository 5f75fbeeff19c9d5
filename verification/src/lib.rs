//! Extracts machine-checkable configuration schemas from literate
//! documentation text.
//!
//! The library parses a lightweight markup language (`\name{arg}...` calls,
//! `{- ... -}` comments, literal text) into a node tree, walks that tree to
//! find schema and attribute annotations, parses each attribute's type
//! expression, and assembles a schema model that a downstream serializer can
//! render into a JSON Schema document.

pub mod convert;
pub mod lit;
pub mod render;
pub mod schema;
pub mod text;
pub mod typeexpr;
