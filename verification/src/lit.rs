//! The markup parser: turns raw text into an ordered tree of nodes.

pub mod grammar;
pub mod parser;
pub mod types;

pub use parser::parse;
