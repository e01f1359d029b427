//! What an extraction makes of an image that was stored as the format has it.
use vstd::prelude::*;

use super::androidsparse_model as model;
use super::androidsparse_model::{Progress, SparseRun};
use super::common::ExtractionResult;
use crate::structures::androidsparse;
use crate::structures::androidsparse::{AndroidSparseChunkHeader, AndroidSparseHeader};

verus! {

/// A chunk: what its header says, and its data.
pub struct StoredChunk {
    pub header: AndroidSparseChunkHeader,
    pub data: Seq<u8>,
}

impl StoredChunk {
    /// The bytes of the chunk.
    pub open spec fn encode(self) -> Seq<u8> {
        self.header.encode() + self.data
    }

    /// Whether the chunk can stand in an image with the file header `header`.
    pub open spec fn is_well_formed(self, header: AndroidSparseHeader) -> bool {
        &&& self.header.is_well_formed()
        &&& self.data.len() == self.header.data_size
        &&& self.header.is_raw ==> self.data.len() == self.header.block_count * header.block_size
    }
}

/// The bytes of some chunks, one behind the other.
pub open spec fn encode_chunks(chunks: Seq<StoredChunk>) -> Seq<u8>
    decreases chunks.len(),
{
    if chunks.len() == 0 {
        Seq::empty()
    } else {
        chunks.first().encode() + encode_chunks(chunks.drop_first())
    }
}

/// How many blocks some chunks stand for.
pub open spec fn total_blocks(chunks: Seq<StoredChunk>) -> int
    decreases chunks.len(),
{
    if chunks.len() == 0 {
        0
    } else {
        chunks.first().header.block_count + total_blocks(chunks.drop_first())
    }
}

/// What some chunks stand for.
pub open spec fn unsparsed(header: AndroidSparseHeader, chunks: Seq<StoredChunk>) -> Seq<u8>
    decreases chunks.len(),
{
    if chunks.len() == 0 {
        Seq::empty()
    } else {
        unsparsed(header, chunks.drop_last()) + model::chunk_content(
            header,
            chunks.last().header,
            chunks.last().data,
        )
    }
}

/// A sparse image: what its file header says, and its chunks.
pub struct StoredImage {
    pub magic: u32,
    pub header: AndroidSparseHeader,
    pub checksum: u32,
    pub chunks: Seq<StoredChunk>,
}

impl StoredImage {
    /// The bytes of the image.
    pub open spec fn encode(self) -> Seq<u8> {
        self.header.encode(self.magic, self.checksum) + encode_chunks(self.chunks)
    }

    /// Whether the image is as its file header says.
    pub open spec fn is_well_formed(self) -> bool {
        &&& self.header.is_well_formed()
        &&& self.header.block_count * self.header.block_size <= 0x4_0000_0000
        &&& self.header.block_count * self.header.block_size <= usize::MAX
        &&& self.header.chunk_count == self.chunks.len()
        &&& total_blocks(self.chunks) <= self.header.block_count
        &&& forall|i: int|
            0 <= i < self.chunks.len() ==> (#[trigger] self.chunks[i]).is_well_formed(self.header)
    }

    /// The extraction of the image from between other data.
    pub open spec fn run(
        self,
        before: Seq<u8>,
        after: Seq<u8>,
        directory: Option<Seq<char>>,
    ) -> SparseRun {
        SparseRun {
            file: before + self.encode() + after,
            offset: before.len() as int,
            directory,
        }
    }
}

/// The walk over some chunks that are stored one behind the other.
proof fn lemma_walk_over_stored(
    run: SparseRun,
    at: int,
    blocks: int,
    chunks: Seq<StoredChunk>,
    after: Seq<u8>,
)
    requires
        run.is_valid(),
        0 <= at <= run.file.len(),
        run.file.skip(at) == encode_chunks(chunks) + after,
        blocks + total_blocks(chunks) <= run.header().block_count,
        !run.admits(at + encode_chunks(chunks).len(), blocks + total_blocks(chunks)),
        forall|i: int|
            0 <= i < chunks.len() ==> (#[trigger] chunks[i]).is_well_formed(run.header()),
    ensures
        ({
            let walked = run.chunks_from(at, blocks);
            &&& walked.len() == chunks.len()
            &&& forall|i: int|
                0 <= i < chunks.len() ==> {
                    &&& (#[trigger] walked[i]).header == chunks[i].header
                    &&& run.data_of(walked[i]) == chunks[i].data
                }
            &&& chunks.len() > 0 ==> walked.last().end() == at + encode_chunks(chunks).len()
        }),
    decreases chunks.len(),
{
    let walked = run.chunks_from(at, blocks);
    if chunks.len() > 0 {
        let first = chunks.first();
        let others = chunks.drop_first();
        let rest = first.data + encode_chunks(others) + after;
        assert(run.file.skip(at) =~= first.header.encode() + rest);
        assert(first == chunks[0]);
        androidsparse::law_chunk_header_reads_back(first.header, rest);
        lemma_total_blocks(others);
        let chunk = run.chunk_at(at);
        assert(run.file.skip(at).len() == run.file.len() - at);
        assert(run.admits(at, blocks));
        assert(run.file.skip(chunk.end()) =~= encode_chunks(others) + after) by {
            assert(run.file.skip(chunk.end()) =~= run.file.skip(at).skip(chunk.end() - at));
        }
        assert(run.data_of(chunk) =~= first.data) by {
            assert(run.data_of(chunk) =~= run.file.skip(at).subrange(
                chunk.data_start() - at,
                chunk.end() - at,
            ));
        }
        assert forall|i: int| 0 <= i < others.len() implies (#[trigger] others[i]).is_well_formed(
            run.header(),
        ) by {
            assert(others[i] == chunks[i + 1]);
        }
        lemma_walk_over_stored(
            run,
            chunk.end(),
            blocks + chunk.header.block_count,
            others,
            after,
        );
        let walked_on = run.chunks_from(chunk.end(), blocks + chunk.header.block_count);
        assert(walked == seq![chunk] + walked_on);
        assert forall|i: int| 0 <= i < chunks.len() implies {
            &&& (#[trigger] walked[i]).header == chunks[i].header
            &&& run.data_of(walked[i]) == chunks[i].data
        } by {
            if i > 0 {
                assert(walked[i] == walked_on[i - 1]);
                assert(chunks[i] == others[i - 1]);
            }
        }
        if others.len() > 0 {
            assert(walked.last() == walked_on.last());
        } else {
            assert(walked.last() == chunk);
        }
    }
}

proof fn lemma_total_blocks(chunks: Seq<StoredChunk>)
    ensures
        total_blocks(chunks) >= 0,
    decreases chunks.len(),
{
    if chunks.len() > 0 {
        lemma_total_blocks(chunks.drop_first());
    }
}

/// What was stored comes out again. From a well-formed image every chunk is
/// extracted; the result is a success, and its size is that of the image; and the
/// output is what the chunks stand for. That holds wherever the image is, and
/// whatever is around it, unless what is behind it passes for one more chunk.
pub proof fn law_stored_image_is_extracted(
    image: StoredImage,
    before: Seq<u8>,
    after: Seq<u8>,
    directory: Option<Seq<char>>,
)
    requires
        image.is_well_formed(),
        before.len() + image.encode().len() + after.len() <= usize::MAX,
        !image.run(before, after, directory).admits(
            (before.len() + image.encode().len()) as int,
            total_blocks(image.chunks),
        ),
    ensures
        ({
            let run = image.run(before, after, directory);
            let written = run.appends().len() as int;
            &&& run.accepted()
            &&& run.header() == image.header
            &&& run.chunks().len() == image.chunks.len()
            &&& run.result(written) == (ExtractionResult {
                size: Some(image.encode().len() as usize),
                success: true,
            })
            &&& directory is Some ==> run.output(written) == unsparsed(image.header, image.chunks)
            &&& (Progress { run, written, failed: false }).pending() is None
            &&& (Progress { run, written, failed: false }).result() == (ExtractionResult {
                size: Some(image.encode().len() as usize),
                success: true,
            })
        }),
{
    let run = image.run(before, after, directory);
    let written = run.appends().len() as int;
    let all = image.chunks.len() as int;
    lemma_header_of_stored(image, before, after, directory);
    lemma_walk_over_stored(run, run.start(), 0, image.chunks, after);
    run.law_processed(all, written);
    assert(run.end(all) == run.start() + encode_chunks(image.chunks).len());
    if directory is Some {
        lemma_content_of_stored(run, image.chunks, all);
        run.law_output_is_content(all);
        assert(image.chunks.take(all) =~= image.chunks);
    }
}

/// Data behind an image do not matter if they are too short for a chunk header, or if
/// their first bytes are not those of one: no known type, a reserved field that is not
/// zero, or a total size below that of the header itself.
pub proof fn law_foreign_data_behind_do_not_matter(
    image: StoredImage,
    before: Seq<u8>,
    after: Seq<u8>,
    directory: Option<Seq<char>>,
)
    requires
        image.is_well_formed(),
        before.len() + image.encode().len() + after.len() <= usize::MAX,
        ({
            ||| after.len() < 12
            ||| after[1] != 0xCA
            ||| after[0] < 0xC1 || after[0] > 0xC4
            ||| after[2] != 0 || after[3] != 0
            ||| after[8] < 12 && after[9] == 0 && after[10] == 0 && after[11] == 0
        }),
    ensures
        ({
            let run = image.run(before, after, directory);
            let written = run.appends().len() as int;
            &&& run.chunks().len() == image.chunks.len()
            &&& (Progress { run, written, failed: false }).pending() is None
            &&& (Progress { run, written, failed: false }).result() == (ExtractionResult {
                size: Some(image.encode().len() as usize),
                success: true,
            })
        }),
{
    let run = image.run(before, after, directory);
    let at = (before.len() + image.encode().len()) as int;
    assert(run.file.skip(at) =~= after);
    androidsparse::law_chunk_header_bytes(after);
    law_stored_image_is_extracted(image, before, after, directory);
}

/// The requests for an image, one behind the other, are what its chunks stand for, whole
/// and in order.
pub proof fn law_stored_image_is_handed_out(
    image: StoredImage,
    before: Seq<u8>,
    after: Seq<u8>,
    directory: Seq<char>,
    requests: Seq<Seq<u8>>,
)
    requires
        image.is_well_formed(),
        before.len() + image.encode().len() + after.len() <= usize::MAX,
        !image.run(before, after, Some(directory)).admits(
            (before.len() + image.encode().len()) as int,
            total_blocks(image.chunks),
        ),
        forall|k: int|
            0 <= k < requests.len() ==> (Progress {
                run: image.run(before, after, Some(directory)),
                written: k,
                failed: false,
            }).pending() == Some(#[trigger] requests[k]),
        (Progress {
            run: image.run(before, after, Some(directory)),
            written: requests.len() as int,
            failed: false,
        }).pending() is None,
    ensures
        requests.flatten() == unsparsed(image.header, image.chunks),
{
    let run = image.run(before, after, Some(directory));
    let count = requests.len() as int;
    law_stored_image_is_extracted(image, before, after, Some(directory));
    Progress::law_requests_make_up_the_output(run, requests);
    if count > 0 {
        assert((Progress { run, written: count - 1, failed: false }).pending() == Some(
            requests[count - 1],
        ));
    }
    assert(count == run.appends().len());
}

/// The file header of an image is found, and the chunks behind it.
proof fn lemma_header_of_stored(
    image: StoredImage,
    before: Seq<u8>,
    after: Seq<u8>,
    directory: Option<Seq<char>>,
)
    requires
        image.is_well_formed(),
    ensures
        ({
            let run = image.run(before, after, directory);
            let chunks = encode_chunks(image.chunks);
            &&& run.accepted()
            &&& run.header() == image.header
            &&& run.offset + image.encode().len() == run.start() + chunks.len()
            &&& run.start() + chunks.len() + after.len() == run.file.len()
            &&& run.file.skip(run.start()) == chunks + after
        }),
{
    let run = image.run(before, after, directory);
    let rest = encode_chunks(image.chunks) + after;
    let header = image.header.encode(image.magic, image.checksum);
    assert(run.file.skip(run.offset) =~= header + rest);
    androidsparse::law_sparse_header_reads_back(image.header, image.magic, image.checksum, rest);
    assert(run.file.skip(run.start()) =~= rest);
}

proof fn lemma_content_of_stored(run: SparseRun, chunks: Seq<StoredChunk>, n: int)
    requires
        0 <= n <= chunks.len() == run.chunks().len(),
        forall|i: int|
            0 <= i < chunks.len() ==> {
                &&& (#[trigger] run.chunks()[i]).header == chunks[i].header
                &&& run.data_of(run.chunks()[i]) == chunks[i].data
            },
    ensures
        run.content(n) == unsparsed(run.header(), chunks.take(n)),
    decreases n,
{
    if n > 0 {
        lemma_content_of_stored(run, chunks, n - 1);
        assert(chunks.take(n).drop_last() =~= chunks.take(n - 1));
        assert(run.chunks()[n - 1].header == chunks[n - 1].header);
    }
}

} // verus!
