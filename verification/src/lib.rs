//! Parser for the plain-text layout dump of a mood-tracking journal export.
//!
//! The input is layout-preserving text extracted from a PDF: columns are
//! separated by runs of two-or-more spaces, and sections by runs of blank
//! lines. The parser turns that text into a structured record set: a list of
//! per-mood/per-tag usage counters and a chronological list of day entries
//! with free-text notes. Any grammar violation anywhere is a hard failure
//! for the whole input, reported as one position-annotated error value.

pub mod document;
pub mod entry;
pub mod error;
pub mod laws;
pub mod stats;
pub mod text;
