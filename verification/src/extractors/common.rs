//! What the extractors share.
use vstd::prelude::*;

use super::androidsparse::{extract_android_sparse, Extraction};
use super::androidsparse_model::{Progress, SparseRun};

verus! {

/// How an extraction ended: `size` is the number of input bytes that the
/// extracted format occupies, known where the extraction succeeded.
#[derive(Debug, Clone, Copy, PartialEq, Eq, Structural)]
pub struct ExtractionResult {
    pub size: Option<usize>,
    pub success: bool,
}

impl Default for ExtractionResult {
    /// The result of an extraction that has not succeeded.
    fn default() -> (result: Self)
        ensures
            result == (ExtractionResult { size: None, success: false }),
    {
        ExtractionResult { size: None, success: false }
    }
}

/// A request to append `data` to the file `outfile` in `directory`.
#[derive(Debug, Clone, Copy)]
pub struct Append<'a> {
    pub directory: &'a str,
    pub outfile: &'static str,
    pub data: &'a [u8],
}

/// An extractor that is part of this library.
#[derive(Debug, Clone, Copy, PartialEq, Eq, Structural)]
pub enum InternalExtractor {
    AndroidSparse,
}

impl InternalExtractor {
    /// Runs the extractor on the data at `offset` in `file_data`.
    pub fn extract<'a>(
        self,
        file_data: &'a [u8],
        offset: usize,
        output_directory: Option<&'a str>,
    ) -> (extraction: Extraction<'a>)
        requires
            offset <= file_data@.len(),
        ensures
            extraction.is_at(
                Progress::start(SparseRun::new(file_data@, offset as int, output_directory)),
            ),
            ({
                let start = Progress {
                    run: SparseRun {
                        file: file_data@,
                        offset: offset as int,
                        directory: match output_directory {
                            Some(directory) => Some(directory@),
                            None => None,
                        },
                    },
                    written: 0,
                    failed: false,
                };
                match extraction {
                    Extraction::Finished(result) => {
                        &&& start.pending() is None
                        &&& result == start.result()
                    },
                    Extraction::Suspended(suspended) => {
                        &&& start.pending() is Some
                        &&& suspended@ == start
                    },
                }
            }),
    {
        match self {
            InternalExtractor::AndroidSparse => extract_android_sparse(
                file_data,
                offset,
                output_directory,
            ),
        }
    }
}

/// What does the extraction: nothing, a part of this library, or a program of the
/// given name.
#[derive(Debug)]
pub enum ExtractorType {
    Nothing,
    Internal(InternalExtractor),
    External(String),
}

/// How a format is extracted.
#[derive(Debug)]
pub struct Extractor {
    pub utility: ExtractorType,
}

} // verus!
