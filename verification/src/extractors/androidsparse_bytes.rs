//! What an extraction does, told from the bytes that go in to the bytes that come out.
//!
//! A list of places in the input, each with the blocks that came before it, is either
//! the walk over the chunks or it is not, and that can be told from the bytes alone.
//! Once the walk is known, so are all requests, byte by byte, and every result.
use vstd::prelude::*;

use super::androidsparse_model as model;
use super::androidsparse_model::{Progress, SparseRun};
use super::common::ExtractionResult;
use crate::structures::androidsparse;
use crate::structures::androidsparse::{AndroidSparseChunkHeader, AndroidSparseHeader};

verus! {

/// The appends of a chunk, byte by byte. A raw chunk is appended as it stands. A fill
/// chunk gives one append for each block, made of whole copies of the data and no more
/// of them than it takes. A don't-care chunk gives one block of zeros for each block.
pub proof fn law_chunk_appends_bytes(
    header: AndroidSparseHeader,
    chunk: AndroidSparseChunkHeader,
    data: Seq<u8>,
)
    requires
        chunk.is_fill && !chunk.is_raw ==> data.len() > 0,
    ensures
        ({
            let appends = model::chunk_appends(header, chunk, data);
            &&& appends.len() == if chunk.is_raw {
                1
            } else if chunk.is_fill || chunk.is_dont_care {
                chunk.block_count as int
            } else {
                0
            }
            &&& forall|k: int|
                0 <= k < appends.len() ==> {
                    let block = #[trigger] appends[k];
                    if chunk.is_raw {
                        block == data
                    } else if chunk.is_fill {
                        &&& block.len() as int % (data.len() as int) == 0
                        &&& header.block_size <= block.len() < header.block_size + data.len()
                        &&& forall|i: int|
                            0 <= i < block.len() ==> block[i] == data[i % (data.len() as int)]
                    } else {
                        &&& block.len() == header.block_size
                        &&& forall|i: int| 0 <= i < block.len() ==> block[i] == 0
                    }
                }
        }),
{
    if chunk.is_fill && !chunk.is_raw {
        let n = data.len() as int;
        let sum = header.block_size + n - 1;
        let copies = sum / n;
        vstd::arithmetic::div_mod::lemma_fundamental_div_mod(sum, n);
        vstd::arithmetic::div_mod::lemma_mod_multiples_basic(copies, n);
        assert(n * copies == copies * n) by (nonlinear_arith);
        assert(copies * n >= 0);
    }
}

/// What a chunk stands for, byte by byte.
pub proof fn law_chunk_content_bytes(
    header: AndroidSparseHeader,
    chunk: AndroidSparseChunkHeader,
    data: Seq<u8>,
)
    ensures
        ({
            let content = model::chunk_content(header, chunk, data);
            &&& chunk.is_raw ==> content == data
            &&& !chunk.is_raw && (chunk.is_fill || chunk.is_dont_care) ==> content.len()
                == chunk.block_count * header.block_size
            &&& !chunk.is_raw && chunk.is_fill ==> forall|i: int|
                0 <= i < content.len() ==> content[i] == data[i % (data.len() as int)]
            &&& !chunk.is_raw && !chunk.is_fill && chunk.is_dont_care ==> forall|i: int|
                0 <= i < content.len() ==> content[i] == 0
            &&& !chunk.is_raw && !chunk.is_fill && !chunk.is_dont_care ==> content.len() == 0
        }),
{
    assert(chunk.block_count * header.block_size >= 0) by (nonlinear_arith);
}

impl SparseRun {
    /// An image is accepted exactly if there are the bytes of a file header and the
    /// product of the two sizes in it is at most 16 GiB; nothing else is asked. On
    /// machines with smaller addresses the product must be an address, too.
    pub proof fn law_acceptance(self)
        requires
            0 <= self.offset <= self.file.len(),
        ensures
            self.accepted() <==> {
                let at = self.offset;
                let block_size = self.file[at + 12] + 0x100 * self.file[at + 13] + 0x1_0000
                    * self.file[at + 14] + 0x100_0000 * self.file[at + 15];
                let block_count = self.file[at + 16] + 0x100 * self.file[at + 17] + 0x1_0000
                    * self.file[at + 18] + 0x100_0000 * self.file[at + 19];
                &&& at + 28 <= self.file.len()
                &&& self.file[at + 4] == 1 && self.file[at + 5] == 0
                &&& self.file[at + 6] == 0 && self.file[at + 7] == 0
                &&& self.file[at + 8] == 28 && self.file[at + 9] == 0
                &&& self.file[at + 10] == 12 && self.file[at + 11] == 0
                &&& block_size % 4 == 0
                &&& block_count * block_size <= 0x4_0000_0000
                &&& block_count * block_size <= usize::MAX
            },
            self.accepted() ==> {
                let at = self.offset;
                let header = self.header();
                &&& header.header_size == 28
                &&& header.block_size == self.file[at + 12] + 0x100 * self.file[at + 13] + 0x1_0000
                    * self.file[at + 14] + 0x100_0000 * self.file[at + 15]
                &&& header.block_count == self.file[at + 16] + 0x100 * self.file[at + 17]
                    + 0x1_0000 * self.file[at + 18] + 0x100_0000 * self.file[at + 19]
                &&& header.chunk_count == self.file[at + 20] + 0x100 * self.file[at + 21]
                    + 0x1_0000 * self.file[at + 22] + 0x100_0000 * self.file[at + 23]
            },
    {
        let data = self.file.skip(self.offset);
        androidsparse::law_sparse_header_bytes(data);
        if data.len() >= 28 {
            assert(forall|i: int| 0 <= i < 28 ==> data[i] == self.file[self.offset + i]);
        }
    }

    /// The walk is told by the bytes. Take any list of places, the first of them behind
    /// the file header, each next one a chunk's total size further, with the number of
    /// blocks so far beside it; let every place but the last hold a chunk that goes on
    /// with the image, and the last one not. Then these are the chunks.
    pub proof fn law_walk_follows_the_bytes(self, places: Seq<int>, sums: Seq<int>)
        requires
            0 <= self.offset <= self.file.len() <= usize::MAX,
            self.accepted(),
            places.len() == sums.len(),
            places.len() > 0,
            places[0] == self.offset + 28,
            sums[0] == 0,
            forall|i: int|
                0 <= i < places.len() ==> {
                    let at = #[trigger] places[i];
                    let goes_on = {
                        let chunk = androidsparse::chunk_header(self.file.skip(at));
                        &&& 0 <= at < self.file.len()
                        &&& androidsparse::is_chunk_header(self.file.skip(at))
                        &&& sums[i] + chunk.block_count <= self.header().block_count
                        &&& chunk.is_raw ==> chunk.data_size == chunk.block_count
                            * self.header().block_size
                        &&& at + 12 + chunk.data_size <= if self.directory is Some {
                            self.file.len() as int
                        } else {
                            usize::MAX as int
                        }
                    };
                    goes_on == (i + 1 < places.len())
                },
            forall|i: int, j: int|
                #![trigger places[i], places[j]]
                0 <= i && j == i + 1 && j < places.len() ==> {
                    let chunk = androidsparse::chunk_header(self.file.skip(places[i]));
                    &&& places[j] == places[i] + 12 + chunk.data_size
                    &&& sums[j] == sums[i] + chunk.block_count
                },
        ensures
            self.chunks().len() == places.len() - 1,
            forall|i: int|
                0 <= i < self.chunks().len() ==> {
                    &&& (#[trigger] self.chunks()[i]).at == places[i]
                    &&& self.chunks()[i].header == androidsparse::chunk_header(
                        self.file.skip(places[i]),
                    )
                },
    {
        self.law_acceptance();
        assert forall|i: int| 0 <= i < places.len() implies (#[trigger] self.admits(
            places[i],
            sums[i],
        ) == (i + 1 < places.len())) by {
            let at = places[i];
        }
        self.lemma_walk_of_places(places, sums, places.len() - 1);
        self.law_chunks_are_consecutive(places.len() - 1);
    }

    proof fn lemma_walk_of_places(self, places: Seq<int>, sums: Seq<int>, n: int)
        requires
            0 <= self.offset <= self.file.len() <= usize::MAX,
            self.accepted(),
            self.header().header_size == 28,
            0 <= n < places.len() == sums.len(),
            places[0] == self.offset + 28,
            sums[0] == 0,
            forall|i: int|
                0 <= i < places.len() ==> (#[trigger] self.admits(places[i], sums[i]) == (i + 1
                    < places.len())),
            forall|i: int, j: int|
                #![trigger places[i], places[j]]
                0 <= i && j == i + 1 && j < places.len() ==> {
                    let chunk = self.chunk_at(places[i]);
                    &&& places[j] == chunk.end()
                    &&& sums[j] == sums[i] + chunk.header.block_count
                },
        ensures
            n <= self.chunks().len(),
            self.end(n) == places[n],
            self.blocks(n) == sums[n],
            forall|i: int| 0 <= i < n ==> #[trigger] self.chunks()[i] == self.chunk_at(places[i]),
        decreases n,
    {
        if n > 0 {
            self.lemma_walk_of_places(places, sums, n - 1);
            self.law_chunks_are_consecutive(n - 1);
            assert(self.admits(places[n - 1], sums[n - 1]));
            assert(places[n] == self.chunk_at(places[n - 1]).end());
        }
    }

    /// What is appended for a chunk, taken together, byte by byte: of a raw chunk its
    /// data, of a fill chunk its four bytes over and over, of a don't-care chunk zeros,
    /// each time as many bytes as the chunk's blocks have; of a checksum nothing.
    pub proof fn law_chunk_bytes(self, n: int)
        requires
            0 <= self.offset <= self.file.len() <= usize::MAX,
            self.directory is Some,
            0 <= n < self.chunks().len(),
        ensures
            ({
                let chunk = self.chunks()[n];
                let start = chunk.at + 12;
                let bytes = self.appends_of(chunk).flatten();
                &&& bytes.len() == if chunk.header.is_raw || chunk.header.is_fill
                    || chunk.header.is_dont_care {
                    chunk.header.block_count * self.header().block_size
                } else {
                    0
                }
                &&& chunk.header.is_raw ==> chunk.header.data_size == bytes.len()
                &&& chunk.header.is_raw ==> forall|i: int|
                    0 <= i < bytes.len() ==> bytes[i] == self.file[start + i]
                &&& chunk.header.is_fill ==> forall|i: int|
                    0 <= i < bytes.len() ==> bytes[i] == self.file[start + i % 4]
                &&& chunk.header.is_dont_care ==> forall|i: int|
                    0 <= i < bytes.len() ==> bytes[i] == 0
            }),
    {
        self.law_chunks_are_consecutive(n);
        self.law_chunk_output(n);
        let chunk = self.chunks()[n];
        androidsparse::law_chunk_header_bytes(self.file.skip(chunk.at));
        law_chunk_content_bytes(self.header(), chunk.header, self.data_of(chunk));
    }

    /// The counts tell how much is appended for the first chunks.
    proof fn lemma_counts(self, counts: Seq<int>, n: int)
        requires
            counts.len() == self.chunks().len() + 1,
            counts[0] == 0,
            self.directory is None ==> forall|k: int|
                0 <= k < counts.len() ==> #[trigger] counts[k] == 0,
            self.directory is Some ==> forall|k: int|
                0 <= k < self.chunks().len() ==> counts[k + 1] == counts[k] + if (
                #[trigger] self.chunks()[k]).header.is_raw {
                    1
                } else if self.chunks()[k].header.is_fill || self.chunks()[k].header.is_dont_care {
                    self.chunks()[k].header.block_count as int
                } else {
                    0
                },
            0 <= n < counts.len(),
        ensures
            self.appends_upto(n).len() == counts[n],
        decreases n,
    {
        if n > 0 {
            self.lemma_counts(counts, n - 1);
            let chunk = self.chunks()[n - 1];
            assert(self.appends_of(chunk).len() == counts[n] - counts[n - 1]);
        }
    }

    /// The requests are told by the chunks. Count what the chunks call for: one append
    /// for a raw chunk, one for each block of a fill chunk and of a don't-care chunk,
    /// none for a checksum. Then the request of that count is known byte by byte.
    pub proof fn law_requests(self, counts: Seq<int>, n: int, k: int)
        requires
            0 <= self.offset <= self.file.len() <= usize::MAX,
            self.directory is Some,
            counts.len() == self.chunks().len() + 1,
            counts[0] == 0,
            forall|k: int|
                0 <= k < self.chunks().len() ==> counts[k + 1] == counts[k] + if (
                #[trigger] self.chunks()[k]).header.is_raw {
                    1
                } else if self.chunks()[k].header.is_fill || self.chunks()[k].header.is_dont_care {
                    self.chunks()[k].header.block_count as int
                } else {
                    0
                },
            0 <= n < self.chunks().len(),
            counts[n] <= k < counts[n + 1],
        ensures
            ({
                let chunk = self.chunks()[n];
                let start = chunk.at + 12;
                let progress = Progress { run: self, written: k, failed: false };
                &&& progress.pending() matches Some(data)
                &&& data.len() == if chunk.header.is_raw {
                    chunk.header.data_size
                } else {
                    self.header().block_size
                }
                &&& chunk.header.is_raw ==> forall|i: int|
                    0 <= i < data.len() ==> data[i] == self.file[start + i]
                &&& chunk.header.is_fill ==> forall|i: int|
                    0 <= i < data.len() ==> data[i] == self.file[start + i % 4]
                &&& chunk.header.is_dont_care ==> forall|i: int|
                    0 <= i < data.len() ==> data[i] == 0
            }),
    {
        self.lemma_counts(counts, n);
        self.lemma_counts(counts, n + 1);
        self.law_chunks_are_consecutive(n);
        self.law_appends_grow(n + 1, self.chunks().len() as int);
        let chunk = self.chunks()[n];
        androidsparse::law_chunk_header_bytes(self.file.skip(chunk.at));
        assert(self.appends()[k] == self.appends_upto(n + 1)[k]);
        assert(self.appends_upto(n + 1)[k] == self.appends_of(chunk)[k - counts[n]]);
        self.law_chunk_output(n);
        law_chunk_appends_bytes(self.header(), chunk.header, self.data_of(chunk));
    }

    /// The end is told by the chunks, too. An extraction ends when all that the chunks
    /// call for is stored, or when an append could not be stored. It is a success
    /// exactly if the chunks whose appends are all stored are as many as the file header
    /// declares, and its size runs from the file header to the end of these chunks.
    pub proof fn law_end(self, counts: Seq<int>, n: int, written: int, failed: bool)
        requires
            0 <= self.offset <= self.file.len() <= usize::MAX,
            self.accepted(),
            counts.len() == self.chunks().len() + 1,
            counts[0] == 0,
            self.directory is None ==> forall|k: int|
                0 <= k < counts.len() ==> #[trigger] counts[k] == 0,
            self.directory is Some ==> forall|k: int|
                0 <= k < self.chunks().len() ==> counts[k + 1] == counts[k] + if (
                #[trigger] self.chunks()[k]).header.is_raw {
                    1
                } else if self.chunks()[k].header.is_fill || self.chunks()[k].header.is_dont_care {
                    self.chunks()[k].header.block_count as int
                } else {
                    0
                },
            0 <= n < counts.len(),
            counts[n] <= written,
            n < self.chunks().len() ==> failed && written < counts[n + 1],
            n == self.chunks().len() ==> written == counts[n],
        ensures
            ({
                let progress = Progress { run: self, written, failed };
                let result = progress.result();
                let end = if n == 0 {
                    self.offset + 28
                } else {
                    self.chunks()[n - 1].at + 12 + self.chunks()[n - 1].header.data_size
                };
                &&& progress.pending() is None
                &&& result.success == (n == self.header().chunk_count)
                &&& result.success ==> (result.size matches Some(size) && self.offset + size
                    == end)
                &&& !result.success ==> result.size is None
            }),
    {
        self.lemma_counts(counts, n);
        self.lemma_counts(counts, self.chunks().len() as int);
        if n < self.chunks().len() {
            self.lemma_counts(counts, n + 1);
        }
        self.law_processed(n, written);
        self.law_acceptance();
        self.law_walk_advances(0, n);
        if n > 0 {
            self.law_chunks_are_consecutive(n - 1);
        }
    }

    /// An image that is not accepted is over before anything is requested, without a
    /// success.
    pub proof fn law_end_of_refused(self, written: int, failed: bool)
        requires
            !self.accepted(),
            0 <= written,
        ensures
            (Progress { run: self, written, failed }).pending() is None,
            (Progress { run: self, written, failed }).result() == (ExtractionResult {
                size: None,
                success: false,
            }),
    {
    }
}

impl Progress {
    /// The bytes handed out are the image: what is pending is exactly what the output
    /// grows by once it is stored, from nothing on.
    pub proof fn law_pending_extends_the_output(self)
        requires
            self.written >= 0,
        ensures
            self.run.output(0).len() == 0,
            self.pending() matches Some(data) ==> self.run.output(self.written + 1)
                == self.run.output(self.written) + data,
    {
        let appends = self.run.appends();
        assert(appends.take(0) =~= Seq::empty());
        if self.pending() is Some {
            assert(appends.take(self.written + 1) =~= appends.take(self.written).push(
                appends[self.written],
            ));
            appends.take(self.written).lemma_flatten_push(appends[self.written]);
        }
    }

    /// All requests, one behind the other, are the output.
    pub proof fn law_requests_make_up_the_output(run: SparseRun, requests: Seq<Seq<u8>>)
        requires
            forall|k: int|
                0 <= k < requests.len() ==> (Progress { run, written: k, failed: false }).pending()
                    == Some(#[trigger] requests[k]),
        ensures
            requests.flatten() == run.output(requests.len() as int),
        decreases requests.len(),
    {
        let n = requests.len() as int;
        (Progress { run, written: 0, failed: false }).law_pending_extends_the_output();
        if n > 0 {
            let before = requests.drop_last();
            assert forall|k: int| 0 <= k < before.len() implies (Progress {
                run,
                written: k,
                failed: false,
            }).pending() == Some(#[trigger] before[k]) by {
                assert(before[k] == requests[k]);
            }
            Self::law_requests_make_up_the_output(run, before);
            (Progress { run, written: n - 1, failed: false }).law_pending_extends_the_output();
            assert(before.push(requests[n - 1]) =~= requests);
            before.lemma_flatten_push(requests[n - 1]);
        } else {
            assert(run.output(0) =~= Seq::empty());
        }
    }

    /// However an extraction ends, the size of a success is counted from the file header
    /// to the end of the declared chunks.
    pub proof fn law_size_of_success(self)
        requires
            0 <= self.run.offset <= self.run.file.len() <= usize::MAX,
            self.result().success,
        ensures
            ({
                let count = self.run.header().chunk_count as int;
                &&& 0 <= count <= self.run.chunks().len()
                &&& self.result().size matches Some(size)
                &&& self.run.offset + size == if count == 0 {
                    self.run.offset + 28
                } else {
                    self.run.chunks()[count - 1].at + 12 + self.run.chunks()[count
                        - 1].header.data_size
                }
            }),
    {
        let count = self.run.header().chunk_count as int;
        self.run.law_success(self.written);
        self.run.law_acceptance();
        self.run.lemma_processed_bound(self.run.chunks().len() as int, self.written);
        if count > 0 {
            self.run.law_chunks_are_consecutive(count - 1);
        }
    }

    /// A dry run is over at once, and is a success exactly if the chunks of the walk are
    /// as many as the file header declares.
    pub proof fn law_dry_run_result(file: Seq<u8>, offset: int)
        requires
            0 <= offset <= file.len() <= usize::MAX,
        ensures
            ({
                let run = SparseRun { file, offset, directory: None };
                let start = Progress { run, written: 0, failed: false };
                &&& start.pending() is None
                &&& start.result() == run.result(0)
                &&& start.result().success == (run.accepted() && run.chunks().len()
                    == run.header().chunk_count)
            }),
    {
        let run = SparseRun { file, offset, directory: None };
        run.law_dry_run_writes_nothing();
    }

    /// Bytes before the file header change neither what is pending nor the result, as
    /// long as the offset moves along.
    pub proof fn law_bytes_before_do_not_matter(
        before: Seq<u8>,
        file: Seq<u8>,
        directory: Option<Seq<char>>,
        written: int,
        failed: bool,
    )
        requires
            before.len() + file.len() <= usize::MAX,
            directory is Some || forall|i: int|
                0 <= i < (SparseRun { file, offset: 0, directory }).chunks().len() ==> before.len()
                    + (#[trigger] (SparseRun { file, offset: 0, directory }).chunks()[i]).at + 12
                    + (SparseRun { file, offset: 0, directory }).chunks()[i].header.data_size
                    <= usize::MAX,
        ensures
            ({
                let alone = Progress {
                    run: SparseRun { file, offset: 0, directory },
                    written,
                    failed,
                };
                let behind = Progress {
                    run: SparseRun {
                        file: before + file,
                        offset: before.len() as int,
                        directory,
                    },
                    written,
                    failed,
                };
                &&& alone.pending() == behind.pending()
                &&& alone.result() == behind.result()
            }),
    {
        let run = SparseRun { file: before + file, offset: before.len() as int, directory };
        assert(run.file.skip(run.offset) =~= file);
        assert(run.from_start() == (SparseRun { file, offset: 0, directory }));
        let alone = run.from_start();
        if directory is None {
            assert forall|i: int| 0 <= i < alone.chunks().len() implies before.len() + (
            #[trigger] alone.chunks()[i]).end() <= usize::MAX by {
                alone.law_chunks_are_consecutive(i);
            }
        }
        run.law_position_does_not_matter(written);
    }
}

} // verus!
