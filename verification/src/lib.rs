//! Extraction of Android sparse images.
//!
//! An Android sparse image stores a disk image as a file header followed by
//! chunks, each of which stands for a run of equally sized blocks. The library
//! decides which bytes the unsparsed image consists of, and how much of the
//! input the sparse image occupies.
//!
//! - [`structures`] parses the file header and the chunk headers.
//! - [`extractors`] walks the chunks and produces the unsparsed image.
//! - [`common`] holds the offset check that every such walk goes through.
//!
//! Nothing here touches a disk: an extraction hands out each piece of output
//! together with the place it belongs, and is told whether it was stored.
pub mod common;
pub mod extractors;
pub mod structures;
