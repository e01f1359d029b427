//! What holds of every extraction of a sparse image.
use vstd::prelude::*;

use super::androidsparse_model as model;
use super::androidsparse_model::{Progress, SparseChunk, SparseRun, MAX_UNSPARSED_SIZE};
use super::common::ExtractionResult;
use crate::structures::androidsparse::{CHUNK_HEADER_SIZE, FILE_HEADER_SIZE};

verus! {

/// Where the pattern divides the block, copies of it cover the block exactly.
proof fn lemma_filled_block(pattern: Seq<u8>, size: int)
    requires
        pattern.len() == 4,
        size >= 0,
        size % 4 == 0,
    ensures
        model::filled_block(pattern, size).len() == size,
        forall|i: int| 0 <= i < size ==> model::filled_block(pattern, size)[i] == pattern[i % 4],
{
}

/// A block over and over, as one sequence.
proof fn lemma_repeated_block(block: Seq<u8>, times: int)
    requires
        times >= 0,
    ensures
        ({
            let all = Seq::new(times as nat, |i: int| block).flatten();
            &&& all.len() == times * block.len()
            &&& forall|i: int| 0 <= i < all.len() ==> all[i] == block[i % (block.len() as int)]
        }),
    decreases times,
{
    let blocks = Seq::new(times as nat, |i: int| block);
    let n = block.len() as int;
    if times == 0 {
        assert(times * n == 0) by (nonlinear_arith)
            requires
                times == 0,
        ;
    } else {
        let rest = Seq::new((times - 1) as nat, |i: int| block);
        lemma_repeated_block(block, times - 1);
        assert(blocks =~= rest.push(block));
        rest.lemma_flatten_push(block);
        assert(times * n == (times - 1) * n + n) by (nonlinear_arith);
        assert forall|i: int| 0 <= i < blocks.flatten().len() implies blocks.flatten()[i]
            == block[i % n] by {
            if i >= (times - 1) * n {
                vstd::arithmetic::div_mod::lemma_fundamental_div_mod_converse(
                    i,
                    n,
                    times - 1,
                    i - (times - 1) * n,
                );
            }
        }
    }
}

/// What `i` leaves by 4 does not change by taking away multiples of a multiple.
proof fn lemma_mod_of_aligned(i: int, size: int)
    requires
        size > 0,
        size % 4 == 0,
    ensures
        (i % size) % 4 == i % 4,
{
    vstd::arithmetic::div_mod::lemma_mod_mod(i, 4, size / 4);
}

/// Whether the chunks end where a `usize` reaches, counted from `before` bytes before
/// the input.
pub open spec fn ends_are_expressible(chunks: Seq<SparseChunk>, before: int) -> bool {
    forall|i: int| 0 <= i < chunks.len() ==> before + (#[trigger] chunks[i]).end() <= usize::MAX
}

impl SparseRun {
    /// The walk from the end of the first `n` chunks meets the other chunks.
    proof fn lemma_rest_of_walk(self, n: int)
        requires
            self.accepted(),
            0 <= n <= self.chunks().len(),
        ensures
            self.chunks_from(self.end(n), self.blocks(n)) == self.chunks().skip(n),
        decreases n,
    {
        if n == 0 {
            assert(self.chunks().skip(0) =~= self.chunks());
        } else {
            self.lemma_rest_of_walk(n - 1);
            let rest = self.chunks_from(self.end(n - 1), self.blocks(n - 1));
            assert(rest[0] == self.chunks()[n - 1]);
            let chunk = self.chunk_at(self.end(n - 1));
            assert(rest.skip(1) =~= self.chunks_from(
                chunk.end(),
                self.blocks(n - 1) + chunk.header.block_count,
            ));
            assert(self.chunks().skip(n) =~= rest.skip(1));
        }
    }

    /// The chunks lie one behind the other, from the end of the file header on,
    /// and every one of them is admitted; behind the last one no further chunk
    /// is.
    pub proof fn law_chunks_are_consecutive(self, n: int)
        requires
            self.accepted(),
            0 <= n <= self.chunks().len(),
        ensures
            n < self.chunks().len() <==> self.admits(self.end(n), self.blocks(n)),
            n < self.chunks().len() ==> self.chunks()[n] == self.chunk_at(self.end(n)),
            n < self.chunks().len() ==> self.end(n + 1) == self.chunks()[n].end(),
    {
        self.lemma_rest_of_walk(n);
        let rest = self.chunks_from(self.end(n), self.blocks(n));
        if n < self.chunks().len() {
            assert(rest[0] == self.chunks()[n]);
        } else {
            assert(rest.len() == 0);
        }
    }

    /// The walk never goes back: each chunk ends at least a chunk header behind the
    /// end of the chunk before it.
    pub proof fn law_walk_advances(self, n: int, m: int)
        requires
            self.accepted(),
            0 <= n <= m <= self.chunks().len(),
        ensures
            self.end(m) >= self.end(n) + (m - n) * CHUNK_HEADER_SIZE,
        decreases m,
    {
        if n < m {
            self.law_walk_advances(n, m - 1);
            self.law_chunks_are_consecutive(m - 1);
        }
    }

    /// What is appended for some of the chunks comes first in what is appended for
    /// more of them.
    pub proof fn law_appends_grow(self, n: int, m: int)
        requires
            0 <= n <= m,
        ensures
            self.appends_upto(n).is_prefix_of(self.appends_upto(m)),
        decreases m,
    {
        if n < m {
            self.law_appends_grow(n, m - 1);
        }
    }

    /// The number of chunks that are done is fixed by where the count of stored
    /// appends falls.
    pub proof fn law_processed(self, n: int, written: int)
        requires
            0 <= n <= self.chunks().len(),
            self.appends_upto(n).len() <= written,
            n < self.chunks().len() ==> written < self.appends_upto(n + 1).len(),
        ensures
            self.processed(written) == n,
    {
        self.lemma_processed_of(self.chunks().len() as int, n, written);
    }

    proof fn lemma_processed_of(self, m: int, n: int, written: int)
        requires
            0 <= n <= m <= self.chunks().len(),
            self.appends_upto(n).len() <= written,
            n < self.chunks().len() ==> written < self.appends_upto(n + 1).len(),
        ensures
            self.processed_of(m, written) == n,
        decreases m,
    {
        if n < m {
            self.law_appends_grow(n + 1, m);
            self.lemma_processed_of(m - 1, n, written);
        }
    }

    /// A header that is refused costs nothing: there is nothing to append, and no
    /// success.
    pub proof fn law_refused_header(self, written: int)
        requires
            !self.accepted(),
        ensures
            self.appends().len() == 0,
            self.result(written) == (ExtractionResult { size: None, success: false }),
    {
    }

    proof fn lemma_dry_run_appends(self, n: int)
        requires
            self.directory is None,
        ensures
            self.appends_upto(n).len() == 0,
        decreases n,
    {
        if n > 0 {
            self.lemma_dry_run_appends(n - 1);
        }
    }

    /// A dry run appends nothing, and goes over all chunks at once.
    pub proof fn law_dry_run_writes_nothing(self)
        requires
            self.directory is None,
        ensures
            self.appends().len() == 0,
            self.processed(0) == self.chunks().len(),
    {
        self.lemma_dry_run_appends(self.chunks().len() as int);
        self.law_processed(self.chunks().len() as int, 0);
    }

    /// However many chunks there are, they stand for no more blocks than the file
    /// header declares.
    pub proof fn law_blocks_are_bounded(self, n: int)
        requires
            self.accepted(),
            0 <= n <= self.chunks().len(),
        ensures
            0 <= self.blocks(n) <= self.header().block_count,
    {
        if n > 0 {
            self.law_chunks_are_consecutive(n - 1);
            self.lemma_blocks_grow(0, n);
        }
    }

    proof fn lemma_blocks_grow(self, n: int, m: int)
        requires
            0 <= n <= m,
        ensures
            self.blocks(n) <= self.blocks(m),
        decreases m,
    {
        if n < m {
            self.lemma_blocks_grow(n, m - 1);
        }
    }

    /// What is appended for a chunk is what it stands for. A fill chunk and a
    /// don't-care chunk come out as whole blocks of the declared size.
    pub proof fn law_chunk_output(self, n: int)
        requires
            self.directory is Some,
            0 <= n < self.chunks().len(),
        ensures
            self.appends_of(self.chunks()[n]).flatten() == model::chunk_content(
                self.header(),
                self.chunks()[n].header,
                self.data_of(self.chunks()[n]),
            ),
            ({
                let chunk = self.chunks()[n].header;
                self.appends_of(self.chunks()[n]).flatten().len() == if chunk.is_crc {
                    0
                } else {
                    chunk.block_count * self.header().block_size
                }
            }),
            forall|i: int|
                0 <= i < self.appends_of(self.chunks()[n]).len()
                    && !self.chunks()[n].header.is_raw ==> (#[trigger] self.appends_of(
                    self.chunks()[n],
                )[i]).len() == self.header().block_size,
    {
        self.law_chunks_are_consecutive(n);
        let header = self.header();
        let chunk = self.chunks()[n].header;
        let data = self.data_of(self.chunks()[n]);
        let appends = self.appends_of(self.chunks()[n]);
        let count = chunk.block_count as int;
        let size = header.block_size as int;
        assert(count * size >= 0) by (nonlinear_arith)
            requires
                count >= 0,
                size >= 0,
        ;
        if chunk.is_raw {
            appends.lemma_flatten_singleton();
        } else if chunk.is_fill {
            assert(data.len() == 4);
            lemma_filled_block(data, size);
            lemma_repeated_block(model::filled_block(data, size), count);
            assert forall|i: int| 0 <= i < count * size implies appends.flatten()[i] == #[trigger] data[i
                % 4] by {
                lemma_mod_of_aligned(i, size);
            }
            assert(appends.flatten() =~= model::chunk_content(header, chunk, data));
        } else if chunk.is_dont_care {
            lemma_repeated_block(model::null_block(size), count);
            assert forall|i: int| 0 <= i < count * size implies appends.flatten()[i] == 0 by {
                vstd::arithmetic::div_mod::lemma_mod_bound(i, size);
            }
            assert(appends.flatten() =~= model::chunk_content(header, chunk, data));
        }
    }

    /// The output, once some chunks are done, is what these chunks stand for.
    pub proof fn law_output_is_content(self, n: int)
        requires
            self.directory is Some,
            0 <= n <= self.chunks().len(),
        ensures
            self.appends_upto(n).len() <= self.appends().len(),
            self.output(self.appends_upto(n).len() as int) == self.content(n),
    {
        self.law_appends_grow(n, self.chunks().len() as int);
        assert(self.appends().take(self.appends_upto(n).len() as int) =~= self.appends_upto(n));
        self.lemma_content(n);
    }

    proof fn lemma_content(self, n: int)
        requires
            self.directory is Some,
            0 <= n <= self.chunks().len(),
        ensures
            self.appends_upto(n).flatten() == self.content(n),
        decreases n,
    {
        if n > 0 {
            self.lemma_content(n - 1);
            self.law_chunk_output(n - 1);
            vstd::seq_lib::lemma_flatten_concat(
                self.appends_upto(n - 1),
                self.appends_of(self.chunks()[n - 1]),
            );
        }
    }

    /// What some chunks stand for is no larger than their blocks.
    proof fn lemma_content_size(self, n: int)
        requires
            self.directory is Some,
            0 <= n <= self.chunks().len(),
        ensures
            self.content(n).len() <= self.blocks(n) * self.header().block_size,
        decreases n,
    {
        let size = self.header().block_size as int;
        if n > 0 {
            self.lemma_content_size(n - 1);
            self.law_chunk_output(n - 1);
            let count = self.chunks()[n - 1].header.block_count as int;
            let before = self.blocks(n - 1);
            assert((before + count) * size == before * size + count * size) by (nonlinear_arith);
            assert(count * size >= 0) by (nonlinear_arith)
                requires
                    count >= 0,
                    size >= 0,
            ;
        }
    }

    /// At no time does the output hold more than the file header declares, nor more
    /// than [`MAX_UNSPARSED_SIZE`].
    pub proof fn law_output_is_bounded(self, written: int)
        requires
            0 <= written <= self.appends().len(),
        ensures
            self.accepted() ==> self.output(written).len() <= self.header().block_count
                * self.header().block_size,
            self.output(written).len() <= MAX_UNSPARSED_SIZE,
    {
        let all = self.chunks().len() as int;
        if self.directory is None {
            self.law_dry_run_writes_nothing();
        } else if self.accepted() {
            let appends = self.appends();
            assert(appends =~= appends.take(written) + appends.skip(written));
            vstd::seq_lib::lemma_flatten_concat(appends.take(written), appends.skip(written));
            self.lemma_content(all);
            self.lemma_content_size(all);
            self.law_blocks_are_bounded(all);
            vstd::arithmetic::mul::lemma_mul_inequality(
                self.blocks(all),
                self.header().block_count as int,
                self.header().block_size as int,
            );
        }
        if self.appends().len() == 0 {
            assert(self.appends().take(written) =~= Seq::empty());
        }
    }

    /// A success means that exactly the declared number of chunks is done; its size
    /// runs from the file header to the end of the last of these chunks.
    pub proof fn law_success(self, written: int)
        requires
            self.is_valid(),
            self.result(written).success,
        ensures
            self.accepted(),
            self.processed(written) == self.header().chunk_count,
            self.result(written).size matches Some(size) && self.offset + size == self.end(
                self.header().chunk_count as int,
            ) && size >= FILE_HEADER_SIZE + self.header().chunk_count * CHUNK_HEADER_SIZE,
            self.directory is Some ==> self.end(self.header().chunk_count as int)
                <= self.file.len(),
    {
        let n = self.processed(written);
        self.lemma_processed_bound(self.chunks().len() as int, written);
        self.law_walk_advances(0, n);
        if n > 0 {
            self.law_chunks_are_consecutive(n - 1);
        }
    }

    pub(super) proof fn lemma_processed_bound(self, n: int, written: int)
        requires
            n >= 0,
        ensures
            0 <= self.processed_of(n, written) <= n,
        decreases n,
    {
        if n > 0 {
            self.lemma_processed_bound(n - 1, written);
        }
    }

    /// There is room in the input for the header of each chunk, and no more is
    /// appended than one piece for each declared block and one for each chunk. So
    /// however the fields are set, the work is bounded by what the file header
    /// declares and by the size of the input.
    pub proof fn law_work_is_bounded(self)
        requires
            self.is_valid(),
            self.accepted(),
        ensures
            self.offset + FILE_HEADER_SIZE + self.chunks().len() * CHUNK_HEADER_SIZE
                <= self.file.len(),
            self.appends().len() <= self.header().block_count + self.chunks().len(),
    {
        let all = self.chunks().len() as int;
        if all > 0 {
            self.law_walk_advances(0, all - 1);
            self.law_chunks_are_consecutive(all - 1);
        }
        self.lemma_appends_bound(all);
        self.law_blocks_are_bounded(all);
    }

    proof fn lemma_appends_bound(self, n: int)
        requires
            0 <= n,
        ensures
            self.appends_upto(n).len() <= self.blocks(n) + n,
        decreases n,
    {
        if n > 0 {
            self.lemma_appends_bound(n - 1);
        }
    }

    /// The next chunk is always behind the last one, so what ends the walk is never
    /// the order of the offsets.
    pub proof fn law_offsets_are_in_order(self, n: int)
        requires
            self.is_valid(),
            self.accepted(),
            0 < n <= self.chunks().len(),
        ensures
            0 <= self.chunks()[n - 1].at < self.end(n) <= usize::MAX,
            crate::common::offset_is_safe(
                self.file.len() as usize,
                self.end(n) as usize,
                Some(self.chunks()[n - 1].at as usize),
            ) <==> self.end(n) < self.file.len(),
    {
        self.law_chunks_are_consecutive(n - 1);
    }

    proof fn lemma_dry_walk(self, at: int, blocks: int)
        requires
            self.is_valid(),
        ensures
            self.chunks_from(at, blocks).is_prefix_of(self.dry().chunks_from(at, blocks)),
            (forall|i: int|
                0 <= i < self.dry().chunks_from(at, blocks).len()
                    ==> (#[trigger] self.dry().chunks_from(at, blocks)[i]).end() <= self.file.len())
                ==> self.chunks_from(at, blocks) == self.dry().chunks_from(at, blocks),
        decreases (if at < self.file.len() { self.file.len() - at } else { 0 }),
    {
        let dry = self.dry();
        if dry.admits(at, blocks) {
            let chunk = self.chunk_at(at);
            let rest = dry.chunks_from(chunk.end(), blocks + chunk.header.block_count);
            let walked = dry.chunks_from(at, blocks);
            assert(walked[0] == chunk);
            assert(walked.skip(1) =~= rest);
            assert forall|i: int| 0 <= i < rest.len() implies rest[i] == walked[i + 1] by {
                assert(walked.skip(1)[i] == walked[i + 1]);
            }
            self.lemma_dry_walk(chunk.end(), blocks + chunk.header.block_count);
        }
    }

    /// A dry run meets all the chunks that are met when output is written, in the
    /// same places. If none of them ends behind the input, it meets no others, and
    /// its result is that of an extraction whose output can all be stored.
    pub proof fn law_dry_run_agrees(self)
        requires
            self.is_valid(),
        ensures
            self.chunks().is_prefix_of(self.dry().chunks()),
            (forall|i: int|
                0 <= i < self.dry().chunks().len() ==> (#[trigger] self.dry().chunks()[i]).end()
                    <= self.file.len()) ==> {
                &&& self.chunks() == self.dry().chunks()
                &&& self.result(self.appends().len() as int) == self.dry().result(0)
            },
    {
        let all = self.chunks().len() as int;
        if self.accepted() {
            self.lemma_dry_walk(self.start(), 0);
        }
        self.law_processed(all, self.appends().len() as int);
        self.dry().law_dry_run_writes_nothing();
    }

    proof fn lemma_shifted_walk(self, at: int, blocks: int)
        requires
            self.is_valid(),
            self.offset <= at,
            self.directory is Some || ends_are_expressible(
                self.from_start().chunks_from(at - self.offset, blocks),
                self.offset,
            ),
        ensures
            ({
                let walked = self.chunks_from(at, blocks);
                let shifted = self.from_start().chunks_from(at - self.offset, blocks);
                &&& walked.len() == shifted.len()
                &&& forall|i: int|
                    0 <= i < walked.len() ==> {
                        &&& (#[trigger] walked[i]).header == shifted[i].header
                        &&& walked[i].at == shifted[i].at + self.offset
                        &&& shifted[i].at >= 0
                    }
            }),
        decreases (if at < self.file.len() { self.file.len() - at } else { 0 }),
    {
        let other = self.from_start();
        let start = at - self.offset;
        assert(other.file.skip(0) =~= other.file);
        if at < self.file.len() {
            assert(other.file.skip(start) =~= self.file.skip(at));
        }
        if other.admits(start, blocks) {
            let chunk = self.chunk_at(at);
            let moved = other.chunk_at(start);
            let so_far = blocks + chunk.header.block_count;
            let rest = self.chunks_from(chunk.end(), so_far);
            let moved_rest = other.chunks_from(moved.end(), so_far);
            let shifted = other.chunks_from(start, blocks);
            assert(shifted[0] == moved);
            assert(self.admits(at, blocks));
            assert forall|i: int| 0 <= i < moved_rest.len() implies moved_rest[i] == shifted[i
                + 1] by {}
            self.lemma_shifted_walk(chunk.end(), so_far);
            let walked = self.chunks_from(at, blocks);
            assert(walked == seq![chunk] + rest);
            assert forall|i: int| 0 < i < walked.len() implies walked[i] == #[trigger] rest[i
                - 1] by {}
        } else {
            assert(!self.admits(at, blocks));
        }
    }

    proof fn lemma_shifted_appends(self, n: int)
        requires
            self.is_valid(),
            self.directory is Some || ends_are_expressible(
                self.from_start().chunks(),
                self.offset,
            ),
            n <= self.chunks().len(),
        ensures
            self.chunks().len() == self.from_start().chunks().len(),
            self.appends_upto(n) == self.from_start().appends_upto(n),
        decreases n,
    {
        let other = self.from_start();
        assert(other.file.skip(0) =~= other.file);
        if self.accepted() {
            self.lemma_shifted_walk(self.start(), 0);
        }
        if n > 0 {
            self.lemma_shifted_appends(n - 1);
            self.law_chunks_are_consecutive(n - 1);
            let chunk = self.chunks()[n - 1];
            let shifted = other.chunks()[n - 1];
            assert(chunk.header == shifted.header);
            if self.directory is Some {
                assert(self.data_of(chunk) =~= other.data_of(shifted));
            }
        }
    }

    proof fn lemma_shifted_processed(self, n: int, written: int)
        requires
            self.is_valid(),
            self.directory is Some || ends_are_expressible(
                self.from_start().chunks(),
                self.offset,
            ),
            n <= self.chunks().len(),
        ensures
            self.processed_of(n, written) == self.from_start().processed_of(n, written),
        decreases n,
    {
        if n > 0 {
            self.lemma_shifted_appends(n);
            self.lemma_shifted_processed(n - 1, written);
        }
    }

    /// An extraction does not depend on what stands before the file header: the
    /// same is appended, with the same result, as if the input started there. The
    /// exception is a dry run over a chunk whose end can be expressed from there, but
    /// not from the start of the input.
    pub proof fn law_position_does_not_matter(self, written: int)
        requires
            self.is_valid(),
            self.directory is Some || ends_are_expressible(
                self.from_start().chunks(),
                self.offset,
            ),
        ensures
            self.appends() == self.from_start().appends(),
            self.result(written) == self.from_start().result(written),
    {
        let other = self.from_start();
        let all = self.chunks().len() as int;
        assert(other.file.skip(0) =~= other.file);
        self.lemma_shifted_appends(all);
        self.lemma_shifted_processed(all, written);
        self.lemma_processed_bound(all, written);
        let n = self.processed(written);
        if self.accepted() {
            self.lemma_shifted_walk(self.start(), 0);
            if n > 0 {
                assert(self.chunks()[n - 1].header == other.chunks()[n - 1].header);
            }
            assert(self.end(n) == other.end(n) + self.offset);
        }
    }
}

impl Progress {
    /// Each answer to what is pending brings the end of the extraction nearer.
    pub proof fn law_extraction_ends(self, stored: bool)
        requires
            self.pending() is Some,
        ensures
            0 <= self.after(stored).remaining() < self.remaining(),
    {
    }

    /// After an append that could not be stored there is no further one, and the
    /// result is that of the chunks that were done before it.
    pub proof fn law_failure_is_final(self, stored: bool)
        requires
            self.pending() is Some,
        ensures
            self.after(false).pending() is None,
            self.after(false).after(stored) == self.after(false),
            self.after(false).result() == self.run.result(self.written),
    {
    }

    /// As long as everything can be stored, what is stored is the appends in their
    /// order, each of them once; the first that cannot be ends the extraction,
    /// whatever is answered then.
    pub proof fn law_answers(run: SparseRun, answers: Seq<bool>, stored: int)
        requires
            0 <= stored <= answers.len(),
            stored <= run.appends().len(),
            forall|i: int| 0 <= i < stored ==> answers[i],
            stored < answers.len() && stored < run.appends().len() ==> !answers[stored],
        ensures
            Progress::start(run).after_all(answers) == (Progress {
                run,
                written: stored,
                failed: stored < answers.len() && stored < run.appends().len(),
            }),
        decreases answers.len(),
    {
        if answers.len() > 0 {
            let before = answers.drop_last();
            if stored < answers.len() {
                Self::law_answers(run, before, stored);
            } else {
                Self::law_answers(run, before, stored - 1);
            }
        }
    }
}

} // verus!
