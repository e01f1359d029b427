//! Extractors: what turns the data of a format into files.
pub mod androidsparse;
pub mod androidsparse_bytes;
pub mod androidsparse_laws;
pub mod androidsparse_model;
pub mod androidsparse_stored;
pub mod common;
