//! The schema model produced by the extractor.

pub mod types;
