//! Dotted numeric version identifiers such as `1.2.3.4`, parsed from text and
//! compared segment by segment, with missing trailing segments read as zero.

pub mod laws;
pub mod model;
mod storage;
pub mod text;
pub mod version;

pub use version::Version;
