//! What the extraction of a sparse image is, as mathematics.
//!
//! A [`SparseRun`] is one extraction: the input, the place of the file header in
//! it, and where the output goes. Its spec functions say which chunks are
//! walked, what is appended to the output for them, and what result comes of it.
use vstd::prelude::*;

use super::common::ExtractionResult;
use crate::structures::androidsparse;
use crate::structures::androidsparse::{AndroidSparseChunkHeader, AndroidSparseHeader};

verus! {

/// No unsparsed image is larger than this: 16 GiB. Partitions of real devices
/// are well below; a header that declares more is out to exhaust the disk.
pub const MAX_UNSPARSED_SIZE: u64 = 0x4_0000_0000;

/// Whether the size of the unsparsed image that `header` declares can be
/// computed and is no larger than [`MAX_UNSPARSED_SIZE`].
pub open spec fn declared_size_is_sane(header: AndroidSparseHeader) -> bool {
    &&& header.block_count * header.block_size <= usize::MAX
    &&& header.block_count * header.block_size <= MAX_UNSPARSED_SIZE
}

/// The shortest run of whole copies of `pattern` that covers `block_size` bytes.
pub open spec fn filled_block(pattern: Seq<u8>, block_size: int) -> Seq<u8> {
    let copies = (block_size + pattern.len() - 1) / (pattern.len() as int);
    Seq::new((copies * pattern.len()) as nat, |i: int| pattern[i % (pattern.len() as int)])
}

/// `block_size` zeros.
pub open spec fn null_block(block_size: int) -> Seq<u8> {
    Seq::new(block_size as nat, |i: int| 0u8)
}

/// What a chunk with the data `data` adds to the output, one append at a time: a
/// raw chunk its data in one piece, a fill chunk and a don't-care chunk one block
/// after the other, and any other chunk nothing.
pub open spec fn chunk_appends(
    header: AndroidSparseHeader,
    chunk: AndroidSparseChunkHeader,
    data: Seq<u8>,
) -> Seq<Seq<u8>> {
    if chunk.is_raw {
        seq![data]
    } else if chunk.is_fill {
        Seq::new(chunk.block_count as nat, |i: int| filled_block(data, header.block_size as int))
    } else if chunk.is_dont_care {
        Seq::new(chunk.block_count as nat, |i: int| null_block(header.block_size as int))
    } else {
        Seq::empty()
    }
}

/// The part of the unsparsed image that a chunk with the data `data` stands for.
pub open spec fn chunk_content(
    header: AndroidSparseHeader,
    chunk: AndroidSparseChunkHeader,
    data: Seq<u8>,
) -> Seq<u8> {
    let size = (chunk.block_count * header.block_size) as nat;
    if chunk.is_raw {
        data
    } else if chunk.is_fill {
        Seq::new(size, |i: int| data[i % (data.len() as int)])
    } else if chunk.is_dont_care {
        Seq::new(size, |i: int| 0u8)
    } else {
        Seq::empty()
    }
}

/// A chunk header, and where in the input it is.
pub struct SparseChunk {
    pub at: int,
    pub header: AndroidSparseChunkHeader,
}

impl SparseChunk {
    /// Where the chunk's data start.
    pub open spec fn data_start(self) -> int {
        self.at + self.header.header_size
    }

    /// Where the chunk's data end, and the next chunk starts.
    pub open spec fn end(self) -> int {
        self.data_start() + self.header.data_size
    }
}

/// One extraction of a sparse image: of the one whose file header is at `offset`
/// in `file`, into `directory`. Without a directory it is a dry run, which walks
/// the chunks and writes nothing.
pub struct SparseRun {
    pub file: Seq<u8>,
    pub offset: int,
    pub directory: Option<Seq<char>>,
}

impl SparseRun {
    /// The extraction into `directory`.
    pub open spec fn new(file: Seq<u8>, offset: int, directory: Option<&str>) -> SparseRun {
        let directory = match directory {
            Some(directory) => Some(directory@),
            None => None,
        };
        SparseRun { file, offset, directory }
    }

    /// The same extraction, as a dry run.
    pub open spec fn dry(self) -> SparseRun {
        SparseRun { directory: None, ..self }
    }

    /// The same extraction, of the same data without what stands before them.
    pub open spec fn from_start(self) -> SparseRun {
        SparseRun { file: self.file.skip(self.offset), offset: 0, ..self }
    }

    /// Whether the input fits in memory, and the file header is looked for inside it.
    pub open spec fn is_valid(self) -> bool {
        0 <= self.offset <= self.file.len() <= usize::MAX
    }

    /// What the file header says.
    pub open spec fn header(self) -> AndroidSparseHeader {
        androidsparse::sparse_header(self.file.skip(self.offset))
    }

    /// Whether there is a file header, and one that declares a sane size.
    pub open spec fn accepted(self) -> bool {
        &&& androidsparse::is_sparse_header(self.file.skip(self.offset))
        &&& declared_size_is_sane(self.header())
    }

    /// Where the first chunk is.
    pub open spec fn start(self) -> int {
        self.offset + self.header().header_size
    }

    /// The chunk at `at`, if there is one.
    pub open spec fn chunk_at(self, at: int) -> SparseChunk {
        SparseChunk { at, header: androidsparse::chunk_header(self.file.skip(at)) }
    }

    /// Whether the walk goes on with a chunk at `at`, when the chunks before it
    /// stand for `blocks` blocks. There must be a chunk header; with its blocks
    /// the image must not outgrow what the file header declares; a raw chunk must
    /// hold exactly its blocks. Where output is written all of the chunk's data
    /// must be there; in a dry run it is enough that their end can be expressed.
    pub open spec fn admits(self, at: int, blocks: int) -> bool {
        let chunk = self.chunk_at(at);
        &&& 0 <= at < self.file.len()
        &&& androidsparse::is_chunk_header(self.file.skip(at))
        &&& blocks + chunk.header.block_count <= self.header().block_count
        &&& chunk.header.is_raw ==> chunk.header.block_count * self.header().block_size
            == chunk.header.data_size
        &&& if self.directory is Some {
            chunk.end() <= self.file.len()
        } else {
            chunk.end() <= usize::MAX
        }
    }

    /// The chunks that are walked from `at` on, when the chunks before it stand
    /// for `blocks` blocks.
    pub open spec fn chunks_from(self, at: int, blocks: int) -> Seq<SparseChunk>
        decreases (if at < self.file.len() { self.file.len() - at } else { 0 }),
    {
        if self.admits(at, blocks) {
            let chunk = self.chunk_at(at);
            seq![chunk] + self.chunks_from(chunk.end(), blocks + chunk.header.block_count)
        } else {
            Seq::empty()
        }
    }

    /// The chunks that are walked, as long as what is appended can be stored.
    pub open spec fn chunks(self) -> Seq<SparseChunk> {
        if self.accepted() {
            self.chunks_from(self.start(), 0)
        } else {
            Seq::empty()
        }
    }

    /// Where the first `n` chunks end.
    pub open spec fn end(self, n: int) -> int {
        if n == 0 {
            self.start()
        } else {
            self.chunks()[n - 1].end()
        }
    }

    /// How many blocks the first `n` chunks stand for.
    pub open spec fn blocks(self, n: int) -> int
        decreases n,
    {
        if n <= 0 {
            0
        } else {
            self.blocks(n - 1) + self.chunks()[n - 1].header.block_count
        }
    }

    /// The data of `chunk`.
    pub open spec fn data_of(self, chunk: SparseChunk) -> Seq<u8> {
        self.file.subrange(chunk.data_start(), chunk.end())
    }

    /// What is appended to the output for `chunk`.
    pub open spec fn appends_of(self, chunk: SparseChunk) -> Seq<Seq<u8>> {
        if self.directory is Some {
            chunk_appends(self.header(), chunk.header, self.data_of(chunk))
        } else {
            Seq::empty()
        }
    }

    /// What is appended to the output for the first `n` chunks.
    pub open spec fn appends_upto(self, n: int) -> Seq<Seq<u8>>
        decreases n,
    {
        if n <= 0 {
            Seq::empty()
        } else {
            self.appends_upto(n - 1) + self.appends_of(self.chunks()[n - 1])
        }
    }

    /// What is appended to the output, as long as each append is stored.
    pub open spec fn appends(self) -> Seq<Seq<u8>> {
        self.appends_upto(self.chunks().len() as int)
    }

    /// How many of the first `n` chunks are done once `written` appends are
    /// stored.
    pub open spec fn processed_of(self, n: int, written: int) -> int
        decreases n,
    {
        if n <= 0 {
            0
        } else if self.appends_upto(n).len() <= written {
            n
        } else {
            self.processed_of(n - 1, written)
        }
    }

    /// How many chunks are done once `written` appends are stored: the largest
    /// number of chunks for which no more than that is appended.
    pub open spec fn processed(self, written: int) -> int {
        self.processed_of(self.chunks().len() as int, written)
    }

    /// The result, if no append is stored but the first `written`. It is a success
    /// if exactly as many chunks are done as the file header declares.
    pub open spec fn result(self, written: int) -> ExtractionResult {
        let processed = self.processed(written);
        if self.accepted() && processed == self.header().chunk_count {
            ExtractionResult {
                size: Some((self.end(processed) - self.offset) as usize),
                success: true,
            }
        } else {
            ExtractionResult { size: None, success: false }
        }
    }

    /// What the output holds once `written` appends are stored.
    pub open spec fn output(self, written: int) -> Seq<u8> {
        self.appends().take(written).flatten()
    }

    /// The part of the unsparsed image that the first `n` chunks stand for.
    pub open spec fn content(self, n: int) -> Seq<u8>
        decreases n,
    {
        if n <= 0 {
            Seq::empty()
        } else {
            let chunk = self.chunks()[n - 1];
            self.content(n - 1) + chunk_content(self.header(), chunk.header, self.data_of(chunk))
        }
    }
}

/// How far an extraction has come: the first `written` appends are stored, and if
/// it has `failed`, the one after them could not be.
pub struct Progress {
    pub run: SparseRun,
    pub written: int,
    pub failed: bool,
}

impl Progress {
    /// An extraction of which nothing is stored yet.
    pub open spec fn start(run: SparseRun) -> Progress {
        Progress { run, written: 0, failed: false }
    }

    /// What is to be appended next, if the extraction is not over.
    pub open spec fn pending(self) -> Option<Seq<u8>> {
        if !self.failed && self.written < self.run.appends().len() {
            Some(self.run.appends()[self.written])
        } else {
            None
        }
    }

    /// How many appends are still to come.
    pub open spec fn remaining(self) -> int {
        if self.failed {
            0
        } else {
            self.run.appends().len() - self.written
        }
    }

    /// How far it has come once it is known whether what was pending is `stored`.
    pub open spec fn after(self, stored: bool) -> Progress {
        if self.pending() is None {
            self
        } else if stored {
            Progress { run: self.run, written: self.written + 1, failed: false }
        } else {
            Progress { run: self.run, written: self.written, failed: true }
        }
    }

    /// How far it has come after some answers, one by one.
    pub open spec fn after_all(self, answers: Seq<bool>) -> Progress
        decreases answers.len(),
    {
        if answers.len() == 0 {
            self
        } else {
            self.after_all(answers.drop_last()).after(answers.last())
        }
    }

    /// What comes of the extraction if it goes no further.
    pub open spec fn result(self) -> ExtractionResult {
        self.run.result(self.written)
    }
}

} // verus!
