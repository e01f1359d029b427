//! The extractor of Android sparse images.
use vstd::prelude::*;

use super::androidsparse_model as model;
use super::androidsparse_model::{Progress, SparseRun, MAX_UNSPARSED_SIZE};
use super::common::{Append, ExtractionResult, Extractor, ExtractorType, InternalExtractor};
use crate::common::is_offset_safe;
use crate::structures::androidsparse;
use crate::structures::androidsparse::{AndroidSparseChunkHeader, AndroidSparseHeader};

verus! {

/// How Android sparse images are extracted: by [`extract_android_sparse`].
pub fn android_sparse_extractor() -> (extractor: Extractor)
    ensures
        extractor.utility == ExtractorType::Internal(InternalExtractor::AndroidSparse),
{
    Extractor { utility: ExtractorType::Internal(InternalExtractor::AndroidSparse) }
}

/// Bytes to append to the output: a part of the input as it stands, or a block
/// that was made.
#[derive(Debug)]
pub enum Block<'a> {
    Stored(&'a [u8]),
    Made(Vec<u8>),
}

impl<'a> View for Block<'a> {
    type V = Seq<u8>;

    open spec fn view(&self) -> Seq<u8> {
        match self {
            Block::Stored(data) => data@,
            Block::Made(data) => data@,
        }
    }
}

impl<'a> Block<'a> {
    /// The bytes themselves.
    pub fn as_slice(&self) -> (data: &[u8])
        ensures
            data@ == self@,
            match *self {
                Block::Stored(bytes) => data@ == bytes@,
                Block::Made(bytes) => data@ == bytes@,
            },
    {
        match self {
            Block::Stored(data) => data,
            Block::Made(data) => data.as_slice(),
        }
    }
}

/// What a chunk adds to the output: `block`, appended `times` times.
#[derive(Debug)]
pub struct ChunkOutput<'a> {
    pub block: Block<'a>,
    pub times: usize,
}

impl<'a> ChunkOutput<'a> {
    /// The appends, one by one.
    pub open spec fn appends(self) -> Seq<Seq<u8>> {
        Seq::new(self.times as nat, |i: int| self.block@)
    }
}

/// Whole copies of `pattern`, as many as it takes to cover `block_size` bytes.
fn make_filled_block(pattern: &[u8], block_size: usize) -> (block: Vec<u8>)
    requires
        pattern@.len() > 0,
    ensures
        block@ == model::filled_block(pattern@, block_size as int),
        block@.len() as int % (pattern@.len() as int) == 0,
        block_size <= block@.len() < block_size + pattern@.len(),
        forall|i: int|
            0 <= i < block@.len() ==> block@[i] == pattern@[i % (pattern@.len() as int)],
{
    let mut block: Vec<u8> = Vec::new();
    let ghost n = pattern@.len() as int;
    let ghost mut copies: int = 0;
    while block.len() < block_size
        invariant
            n == pattern@.len() > 0,
            copies >= 0,
            block@.len() == copies * n,
            copies > 0 ==> (copies - 1) * n < block_size,
            forall|i: int| 0 <= i < block@.len() ==> block@[i] == pattern@[i % n],
        decreases (if block.len() < block_size { block_size - block.len() } else { 0 }),
    {
        let ghost before = block@;
        block.extend_from_slice(pattern);
        proof {
            assert((copies + 1) * n == copies * n + n) by (nonlinear_arith);
            assert forall|i: int| 0 <= i < block@.len() implies block@[i] == pattern@[i % n] by {
                if i >= before.len() {
                    vstd::arithmetic::div_mod::lemma_fundamental_div_mod_converse(
                        i,
                        n,
                        copies,
                        i - before.len(),
                    );
                } else {
                    assert(block@[i] == before[i]);
                }
            }
            copies = copies + 1;
        }
    }
    proof {
        // block_size + n - 1 lies in [copies * n, copies * n + n)
        assert((copies - 1) * n == copies * n - n) by (nonlinear_arith);
        assert(copies * n == n * copies) by (nonlinear_arith);
        if copies == 0 {
            assert(0 * n == 0) by (nonlinear_arith);
        }
        vstd::arithmetic::div_mod::lemma_fundamental_div_mod_converse(
            block_size + n - 1,
            n,
            copies,
            block_size + n - 1 - copies * n,
        );
        assert(block@ =~= model::filled_block(pattern@, block_size as int));
        vstd::arithmetic::div_mod::lemma_mod_multiples_basic(copies, n);
    }
    block
}

/// A block of zeros.
fn make_null_block(block_size: usize) -> (block: Vec<u8>)
    ensures
        block@ == model::null_block(block_size as int),
{
    let mut block: Vec<u8> = Vec::new();
    while block.len() < block_size
        invariant
            block@.len() <= block_size,
            forall|i: int| 0 <= i < block@.len() ==> block@[i] == 0,
        decreases block_size - block.len(),
    {
        block.push(0);
    }
    assert(block@ =~= model::null_block(block_size as int));
    block
}

/// What the chunk with the header `chunk_header` and the data `chunk_data` adds to
/// the output. A fill chunk without data has nothing to fill its blocks with, and
/// is refused.
pub fn extract_chunk<'a>(
    sparse_header: &AndroidSparseHeader,
    chunk_header: &AndroidSparseChunkHeader,
    chunk_data: &'a [u8],
) -> (output: Option<ChunkOutput<'a>>)
    ensures
        output is None <==> !chunk_header.is_raw && chunk_header.is_fill && chunk_data@.len() == 0,
        output matches Some(output) ==> output.appends() == model::chunk_appends(
            *sparse_header,
            *chunk_header,
            chunk_data@,
        ),
        output matches Some(output) ==> output.times == if chunk_header.is_raw {
            1
        } else if chunk_header.is_fill || chunk_header.is_dont_care {
            chunk_header.block_count
        } else {
            0
        },
        output matches Some(output) ==> output.times > 0 ==> {
            let block = output.block@;
            let size = sparse_header.block_size;
            let pattern = chunk_data@.len() as int;
            if chunk_header.is_raw {
                block == chunk_data@
            } else if chunk_header.is_fill {
                &&& block.len() as int % pattern == 0
                &&& size <= block.len() < size + pattern
                &&& forall|i: int| 0 <= i < block.len() ==> block[i] == chunk_data@[i % pattern]
            } else {
                &&& block.len() == size
                &&& forall|i: int| 0 <= i < block.len() ==> block[i] == 0
            }
        },
{
    let output = if chunk_header.is_raw {
        // Raw chunks are stored as they are
        ChunkOutput { block: Block::Stored(chunk_data), times: 1 }
    } else if chunk_header.is_fill && chunk_data.is_empty() {
        return None;
    } else if chunk_header.is_fill && chunk_header.block_count > 0 {
        // All blocks of a fill chunk are the same
        ChunkOutput {
            block: Block::Made(make_filled_block(chunk_data, sparse_header.block_size)),
            times: chunk_header.block_count,
        }
    } else if chunk_header.is_dont_care && !chunk_header.is_fill && chunk_header.block_count > 0 {
        ChunkOutput {
            block: Block::Made(make_null_block(sparse_header.block_size)),
            times: chunk_header.block_count,
        }
    } else {
        ChunkOutput { block: Block::Stored(chunk_data), times: 0 }
    };
    assert(output.appends() =~= model::chunk_appends(
        *sparse_header,
        *chunk_header,
        chunk_data@,
    ));
    Some(output)
}

/// The file that the unsparsed image is written to.
pub const OUTFILE_NAME: &'static str = "unsparsed.img";

/// What to extract, and where to.
#[derive(Clone, Copy)]
struct Source<'a> {
    file_data: &'a [u8],
    offset: usize,
    output_directory: Option<&'a str>,
}

impl<'a> Source<'a> {
    spec fn run(self) -> SparseRun {
        SparseRun::new(self.file_data@, self.offset as int, self.output_directory)
    }
}

/// Where the walk over the chunks is.
#[derive(Clone, Copy)]
struct Walk {
    next_chunk_offset: usize,
    last_chunk_offset: Option<usize>,
    processed_chunk_count: usize,
    blocks_written: usize,
}

impl Walk {
    /// Whether this is the place behind the first chunks of `run`.
    spec fn is_in(self, run: SparseRun) -> bool {
        let n = self.processed_chunk_count as int;
        &&& n <= run.chunks().len()
        &&& n <= self.next_chunk_offset
        &&& self.next_chunk_offset == run.end(n)
        &&& self.blocks_written == run.blocks(n)
        &&& match self.last_chunk_offset {
            Some(last) => last < self.next_chunk_offset,
            None => true,
        }
    }
}

/// A chunk of which `appended` appends are stored, and some are not.
struct ChunkInProgress<'a> {
    header: AndroidSparseChunkHeader,
    output: ChunkOutput<'a>,
    appended: usize,
}

impl<'a> ChunkInProgress<'a> {
    spec fn is_in(self, run: SparseRun, n: int) -> bool {
        &&& n < run.chunks().len()
        &&& self.header == run.chunks()[n].header
        &&& self.output.appends() == run.appends_of(run.chunks()[n])
        &&& self.appended < self.output.times
    }
}

/// Walks on to the next chunk that something is to be appended for, past the
/// chunks that add nothing to the output. In a dry run that is every chunk.
fn walk_chunks<'a>(source: Source<'a>, header: AndroidSparseHeader, from: Walk) -> (stop: (
    Walk,
    Option<ChunkInProgress<'a>>,
))
    requires
        source.offset <= source.file_data@.len(),
        source.run().accepted(),
        header == source.run().header(),
        from.is_in(source.run()),
    ensures
        stop.0.is_in(source.run()),
        source.run().appends_upto(stop.0.processed_chunk_count as int)
            == source.run().appends_upto(from.processed_chunk_count as int),
        match stop.1 {
            Some(chunk) => {
                &&& chunk.is_in(source.run(), stop.0.processed_chunk_count as int)
                &&& chunk.appended == 0
            },
            None => stop.0.processed_chunk_count == source.run().chunks().len(),
        },
{
    let ghost run = source.run();
    let file_data = source.file_data;
    let available_data = file_data.len();
    let mut walk = from;
    proof {
        run.law_chunks_are_consecutive(from.processed_chunk_count as int);
    }
    while is_offset_safe(available_data, walk.next_chunk_offset, walk.last_chunk_offset)
        invariant
            run == source.run(),
            file_data == source.file_data,
            available_data == file_data@.len(),
            run.accepted(),
            header == run.header(),
            walk.is_in(run),
            run.appends_upto(walk.processed_chunk_count as int) == run.appends_upto(
                from.processed_chunk_count as int,
            ),
            walk.processed_chunk_count < run.chunks().len() <==> run.admits(
                walk.next_chunk_offset as int,
                walk.blocks_written as int,
            ),
        ensures
            walk.processed_chunk_count == run.chunks().len(),
        decreases
            (if walk.next_chunk_offset < available_data {
                available_data - walk.next_chunk_offset
            } else {
                0
            }),
    {
        proof {
            run.law_chunks_are_consecutive(walk.processed_chunk_count as int);
        }
        let rest = vstd::slice::slice_subrange(file_data, walk.next_chunk_offset, available_data);
        let chunk_header = match androidsparse::parse_android_sparse_chunk_header(rest) {
            Ok(chunk_header) => chunk_header,
            Err(_) => break,
        };

        // All chunks together must not describe more blocks than the image has
        let blocks_written = match walk.blocks_written.checked_add(chunk_header.block_count) {
            Some(blocks) if blocks <= header.block_count => blocks,
            _ => break,
        };

        // The data of a raw chunk must be exactly its blocks
        if chunk_header.is_raw {
            match chunk_header.block_count.checked_mul(header.block_size) {
                Some(size) if size == chunk_header.data_size => {},
                _ => break,
            }
        }
        let data_start = walk.next_chunk_offset + chunk_header.header_size;
        let data_end = match data_start.checked_add(chunk_header.data_size) {
            Some(data_end) => data_end,
            None => break,
        };
        if source.output_directory.is_some() {
            if data_end > available_data {
                break;
            }
            let chunk_data = vstd::slice::slice_subrange(file_data, data_start, data_end);
            match extract_chunk(&header, &chunk_header, chunk_data) {
                Some(output) => {
                    if output.times > 0 {
                        return (
                            walk,
                            Some(ChunkInProgress { header: chunk_header, output, appended: 0 }),
                        );
                    }
                },
                None => break,
            }
        }
        walk = Walk {
            next_chunk_offset: data_end,
            last_chunk_offset: Some(walk.next_chunk_offset),
            processed_chunk_count: walk.processed_chunk_count + 1,
            blocks_written,
        };
        proof {
            run.law_chunks_are_consecutive(walk.processed_chunk_count as int);
        }
    }
    (walk, None)
}

/// An extraction that waits for a piece of output to be stored.
pub struct Suspended<'a> {
    source: Source<'a>,
    output_directory: &'a str,
    header: AndroidSparseHeader,
    walk: Walk,
    chunk: ChunkInProgress<'a>,
    written: Ghost<int>,
}

/// How far an extraction has come: it is over, or it waits for a piece of output to
/// be stored. A dry run is over at once.
pub enum Extraction<'a> {
    Finished(ExtractionResult),
    Suspended(Suspended<'a>),
}

impl<'a> Extraction<'a> {
    /// Whether the extraction is as far as `progress` says: over, with the result
    /// that comes of it, if nothing is pending; waiting there if something is.
    pub open spec fn is_at(self, progress: Progress) -> bool {
        match self {
            Extraction::Finished(result) => {
                &&& progress.pending() is None
                &&& result == progress.result()
            },
            Extraction::Suspended(suspended) => {
                &&& progress.pending() is Some
                &&& suspended@ == progress
            },
        }
    }
}

/// What comes of an extraction that ends behind the chunks that are done. As many
/// chunks must be done as the file header declares.
fn conclude(source: Source, header: AndroidSparseHeader, walk: Walk) -> (result: ExtractionResult)
    requires
        source.offset <= source.file_data@.len(),
        source.run().accepted(),
        header == source.run().header(),
        walk.is_in(source.run()),
    ensures
        forall|written: int|
            source.run().processed(written) == walk.processed_chunk_count ==> result
                == #[trigger] source.run().result(written),
{
    proof {
        source.run().law_walk_advances(0, walk.processed_chunk_count as int);
    }
    if walk.processed_chunk_count == header.chunk_count {
        ExtractionResult { size: Some(walk.next_chunk_offset - source.offset), success: true }
    } else {
        ExtractionResult::default()
    }
}

/// Extracts what is behind the chunks that are done.
fn extract_from<'a>(
    source: Source<'a>,
    header: AndroidSparseHeader,
    from: Walk,
    written: Ghost<int>,
) -> (extraction: Extraction<'a>)
    requires
        source.offset <= source.file_data@.len(),
        source.run().accepted(),
        header == source.run().header(),
        from.is_in(source.run()),
        written@ == source.run().appends_upto(from.processed_chunk_count as int).len(),
    ensures
        extraction.is_at(Progress { run: source.run(), written: written@, failed: false }),
{
    let (walk, chunk) = walk_chunks(source, header, from);
    let ghost n = walk.processed_chunk_count as int;
    match (chunk, source.output_directory) {
        (Some(chunk), Some(output_directory)) => {
            proof {
                lemma_pending(source.run(), n, 0, written@);
            }
            Extraction::Suspended(
                Suspended { source, output_directory, header, walk, chunk, written },
            )
        },
        _ => {
            proof {
                source.run().law_processed(n, written@);
            }
            Extraction::Finished(conclude(source, header, walk))
        },
    }
}

/// What is pending of the chunk behind the first `n`, once `appended` of its appends
/// are stored.
proof fn lemma_pending(run: SparseRun, n: int, appended: int, written: int)
    requires
        0 <= n < run.chunks().len(),
        0 <= appended < run.appends_of(run.chunks()[n]).len(),
        written == run.appends_upto(n).len() + appended,
    ensures
        0 <= written < run.appends().len(),
        run.appends()[written] == run.appends_of(run.chunks()[n])[appended],
        run.processed(written) == n,
{
    run.law_appends_grow(n + 1, run.chunks().len() as int);
    assert(run.appends()[written] == run.appends_upto(n + 1)[written]);
    run.law_processed(n, written);
}

impl<'a> View for Suspended<'a> {
    type V = Progress;

    closed spec fn view(&self) -> Progress {
        Progress { run: self.source.run(), written: self.written@, failed: false }
    }
}

impl<'a> Suspended<'a> {
    #[verifier::type_invariant]
    spec fn is_consistent(self) -> bool {
        let run = self.source.run();
        let n = self.walk.processed_chunk_count as int;
        &&& self.source.offset <= self.source.file_data@.len()
        &&& self.source.output_directory == Some(self.output_directory)
        &&& run.accepted()
        &&& self.header == run.header()
        &&& self.walk.is_in(run)
        &&& self.chunk.is_in(run, n)
        &&& self.written@ == run.appends_upto(n).len() + self.chunk.appended
    }

    /// What is to be appended to the output, and where.
    pub fn request(&self) -> (append: Append<'_>)
        ensures
            self@.pending() == Some(append.data@),
            self@.run.directory == Some(append.directory@),
            append.outfile@ == "unsparsed.img"@,
    {
        proof {
            use_type_invariant(self);
            lemma_pending(
                self.source.run(),
                self.walk.processed_chunk_count as int,
                self.chunk.appended as int,
                self.written@,
            );
        }
        Append {
            directory: self.output_directory,
            outfile: OUTFILE_NAME,
            data: self.chunk.output.block.as_slice(),
        }
    }

    /// Goes on, once what was requested is `stored`. If it could not be, the
    /// extraction ends with the chunks that were done before.
    pub fn resume(self, stored: bool) -> (extraction: Extraction<'a>)
        ensures
            extraction.is_at(self@.after(stored)),
            self@.pending() is Some,
            !self@.failed,
            ({
                let next = Progress {
                    run: self@.run,
                    written: if stored {
                        self@.written + 1
                    } else {
                        self@.written
                    },
                    failed: !stored,
                };
                match extraction {
                    Extraction::Finished(result) => {
                        &&& next.pending() is None
                        &&& result == next.result()
                    },
                    Extraction::Suspended(suspended) => {
                        &&& next.pending() is Some
                        &&& suspended@ == next
                    },
                }
            }),
    {
        proof {
            use_type_invariant(&self);
        }
        let Suspended { source, output_directory, header, walk, chunk, written } = self;
        let ghost n = walk.processed_chunk_count as int;
        proof {
            lemma_pending(source.run(), n, chunk.appended as int, written@);
            source.run().law_chunks_are_consecutive(n);
            assert(source.run().chunks()[n].end() <= source.file_data.len());
        }
        if !stored {
            Extraction::Finished(conclude(source, header, walk))
        } else if chunk.appended + 1 < chunk.output.times {
            let chunk = ChunkInProgress { appended: chunk.appended + 1, ..chunk };
            let written = Ghost(written@ + 1);
            proof {
                lemma_pending(source.run(), n, chunk.appended as int, written@);
            }
            Extraction::Suspended(
                Suspended { source, output_directory, header, walk, chunk, written },
            )
        } else {
            let next = Walk {
                next_chunk_offset: walk.next_chunk_offset + chunk.header.header_size
                    + chunk.header.data_size,
                last_chunk_offset: Some(walk.next_chunk_offset),
                processed_chunk_count: walk.processed_chunk_count + 1,
                blocks_written: walk.blocks_written + chunk.header.block_count,
            };
            extract_from(source, header, next, Ghost(written@ + 1))
        }
    }
}

/// Extracts the sparse image whose file header is at `offset` in `file_data`, into
/// `output_directory`. Without an output directory this is a dry run: the chunks
/// are walked as far as that goes, and nothing is written.
///
/// The extraction stops at each piece of output: [`Suspended::request`] is what to
/// append to the output, and [`Suspended::resume`] goes on from there, once it is
/// known whether that could be stored.
pub fn extract_android_sparse<'a>(
    file_data: &'a [u8],
    offset: usize,
    output_directory: Option<&'a str>,
) -> (extraction: Extraction<'a>)
    requires
        offset <= file_data@.len(),
    ensures
        extraction.is_at(
            Progress::start(SparseRun::new(file_data@, offset as int, output_directory)),
        ),
        ({
            let start = Progress {
                run: SparseRun {
                    file: file_data@,
                    offset: offset as int,
                    directory: match output_directory {
                        Some(directory) => Some(directory@),
                        None => None,
                    },
                },
                written: 0,
                failed: false,
            };
            match extraction {
                Extraction::Finished(result) => {
                    &&& start.pending() is None
                    &&& result == start.result()
                },
                Extraction::Suspended(suspended) => {
                    &&& start.pending() is Some
                    &&& suspended@ == start
                },
            }
        }),
{
    let source = Source { file_data, offset, output_directory };
    let rest = vstd::slice::slice_subrange(file_data, offset, file_data.len());
    let header = match androidsparse::parse_android_sparse_header(rest) {
        Ok(header) => header,
        Err(_) => return Extraction::Finished(ExtractionResult::default()),
    };

    // Both factors come from the input: their product may be absurd, or not even
    // expressible
    match header.block_count.checked_mul(header.block_size) {
        Some(size) if size as u64 <= MAX_UNSPARSED_SIZE => {},
        _ => return Extraction::Finished(ExtractionResult::default()),
    }
    let walk = Walk {
        next_chunk_offset: offset + header.header_size,
        last_chunk_offset: None,
        processed_chunk_count: 0,
        blocks_written: 0,
    };
    extract_from(source, header, walk, Ghost(0))
}

} // verus!
