//! Parsers of on-disk structures.
pub mod androidsparse;
pub mod common;
