//! The file header and the chunk headers of an Android sparse image.
//!
//! All fields are little-endian. The file header:
//!
//! | at | size | field                         |
//! |----|------|-------------------------------|
//! |  0 |    4 | magic                         |
//! |  4 |    2 | major version                 |
//! |  6 |    2 | minor version                 |
//! |  8 |    2 | size of this header           |
//! | 10 |    2 | size of a chunk header        |
//! | 12 |    4 | bytes in a block              |
//! | 16 |    4 | blocks in the unsparsed image |
//! | 20 |    4 | chunks in the sparse image    |
//! | 24 |    4 | checksum                      |
//!
//! A chunk header, which the chunk's data follows:
//!
//! | at | size | field                                 |
//! |----|------|---------------------------------------|
//! |  0 |    2 | chunk type                            |
//! |  2 |    2 | reserved                              |
//! |  4 |    4 | blocks that the chunk stands for      |
//! |  8 |    4 | bytes in the chunk, header and all    |
use vstd::prelude::*;

use super::common;
use super::common::StructureError;

verus! {

/// Bytes in the file header.
pub const FILE_HEADER_SIZE: usize = 28;

/// Bytes in a chunk header.
pub const CHUNK_HEADER_SIZE: usize = 12;

/// The one version of the format that is understood.
pub const MAJOR_VERSION: usize = 1;

/// See [`MAJOR_VERSION`].
pub const MINOR_VERSION: usize = 0;

/// The size of a block is a multiple of this.
pub const BLOCK_ALIGNMENT: usize = 4;

/// Bytes of data in a chunk of type [`CHUNK_TYPE_FILL`].
pub const FILL_DATA_SIZE: usize = 4;

/// The chunk's data are its blocks.
pub const CHUNK_TYPE_RAW: usize = 0xCAC1;

/// The chunk's data, over and over, fill its blocks.
pub const CHUNK_TYPE_FILL: usize = 0xCAC2;

/// The chunk's blocks hold nothing of interest.
pub const CHUNK_TYPE_DONT_CARE: usize = 0xCAC3;

/// The chunk's data are a checksum.
pub const CHUNK_TYPE_CRC: usize = 0xCAC4;

/// What the file header says.
#[derive(Debug, Clone, Copy, PartialEq, Eq, Structural)]
pub struct AndroidSparseHeader {
    pub major_version: usize,
    pub minor_version: usize,
    pub header_size: usize,
    pub block_size: usize,
    pub block_count: usize,
    pub chunk_count: usize,
}

/// What a chunk header says; `data_size` is the size of the data behind it.
#[derive(Debug, Clone, Copy, PartialEq, Eq, Structural)]
pub struct AndroidSparseChunkHeader {
    pub header_size: usize,
    pub data_size: usize,
    pub block_count: usize,
    pub is_crc: bool,
    pub is_raw: bool,
    pub is_fill: bool,
    pub is_dont_care: bool,
}

/// Whether `data` starts with a file header that can be worked with.
///
/// The magic is how a file header is found in the first place, so it is not
/// looked at again. The checksum is not looked at either.
pub open spec fn is_sparse_header(data: Seq<u8>) -> bool {
    &&& data.len() >= FILE_HEADER_SIZE
    &&& common::le16(data, 4) == MAJOR_VERSION
    &&& common::le16(data, 6) == MINOR_VERSION
    &&& common::le16(data, 8) == FILE_HEADER_SIZE
    &&& common::le16(data, 10) == CHUNK_HEADER_SIZE
    &&& common::le32(data, 12) % (BLOCK_ALIGNMENT as int) == 0
}

/// What the file header at the start of `data` says.
pub open spec fn sparse_header(data: Seq<u8>) -> AndroidSparseHeader {
    AndroidSparseHeader {
        major_version: common::le16(data, 4) as usize,
        minor_version: common::le16(data, 6) as usize,
        header_size: common::le16(data, 8) as usize,
        block_size: common::le32(data, 12) as usize,
        block_count: common::le32(data, 16) as usize,
        chunk_count: common::le32(data, 20) as usize,
    }
}

/// Whether `data` starts with a chunk header that can be worked with: of a known
/// type, its reserved field zero, with a total size that leaves room for the
/// header itself and, for a fill chunk, for exactly the value to fill with.
pub open spec fn is_chunk_header(data: Seq<u8>) -> bool {
    let chunk_type = common::le16(data, 0);
    let total_size = common::le32(data, 8);
    &&& data.len() >= CHUNK_HEADER_SIZE
    &&& common::le16(data, 2) == 0
    &&& total_size >= CHUNK_HEADER_SIZE
    &&& {
        ||| chunk_type == CHUNK_TYPE_RAW
        ||| chunk_type == CHUNK_TYPE_FILL && total_size == CHUNK_HEADER_SIZE + FILL_DATA_SIZE
        ||| chunk_type == CHUNK_TYPE_DONT_CARE
        ||| chunk_type == CHUNK_TYPE_CRC
    }
}

/// What the chunk header at the start of `data` says.
pub open spec fn chunk_header(data: Seq<u8>) -> AndroidSparseChunkHeader {
    let chunk_type = common::le16(data, 0);
    AndroidSparseChunkHeader {
        header_size: CHUNK_HEADER_SIZE,
        data_size: (common::le32(data, 8) - CHUNK_HEADER_SIZE) as usize,
        block_count: common::le32(data, 4) as usize,
        is_crc: chunk_type == CHUNK_TYPE_CRC,
        is_raw: chunk_type == CHUNK_TYPE_RAW,
        is_fill: chunk_type == CHUNK_TYPE_FILL,
        is_dont_care: chunk_type == CHUNK_TYPE_DONT_CARE,
    }
}

/// Parses the file header at the start of `sparse_data`.
pub fn parse_android_sparse_header(sparse_data: &[u8]) -> (parsed: Result<
    AndroidSparseHeader,
    StructureError,
>)
    ensures
        parsed == if is_sparse_header(sparse_data@) {
            Ok::<AndroidSparseHeader, StructureError>(sparse_header(sparse_data@))
        } else {
            Err(StructureError)
        },
{
    if sparse_data.len() < FILE_HEADER_SIZE {
        return Err(StructureError);
    }
    let header = AndroidSparseHeader {
        major_version: common::read_le16(sparse_data, 4),
        minor_version: common::read_le16(sparse_data, 6),
        header_size: common::read_le16(sparse_data, 8),
        block_size: common::read_le32(sparse_data, 12),
        block_count: common::read_le32(sparse_data, 16),
        chunk_count: common::read_le32(sparse_data, 20),
    };
    if header.major_version == MAJOR_VERSION && header.minor_version == MINOR_VERSION
        && header.header_size == FILE_HEADER_SIZE && common::read_le16(sparse_data, 10)
        == CHUNK_HEADER_SIZE && header.block_size % BLOCK_ALIGNMENT == 0 {
        Ok(header)
    } else {
        Err(StructureError)
    }
}

/// Parses the chunk header at the start of `chunk_data`.
pub fn parse_android_sparse_chunk_header(chunk_data: &[u8]) -> (parsed: Result<
    AndroidSparseChunkHeader,
    StructureError,
>)
    ensures
        parsed == if is_chunk_header(chunk_data@) {
            Ok::<AndroidSparseChunkHeader, StructureError>(chunk_header(chunk_data@))
        } else {
            Err(StructureError)
        },
{
    if chunk_data.len() < CHUNK_HEADER_SIZE {
        return Err(StructureError);
    }
    let chunk_type: usize = common::read_le16(chunk_data, 0);
    let reserved: usize = common::read_le16(chunk_data, 2);
    let total_size: usize = common::read_le32(chunk_data, 8);

    // The size of the data is what is left of the total behind the header
    if reserved != 0 || total_size < CHUNK_HEADER_SIZE {
        return Err(StructureError);
    }
    let header = AndroidSparseChunkHeader {
        header_size: CHUNK_HEADER_SIZE,
        data_size: total_size - CHUNK_HEADER_SIZE,
        block_count: common::read_le32(chunk_data, 4),
        is_crc: chunk_type == CHUNK_TYPE_CRC,
        is_raw: chunk_type == CHUNK_TYPE_RAW,
        is_fill: chunk_type == CHUNK_TYPE_FILL,
        is_dont_care: chunk_type == CHUNK_TYPE_DONT_CARE,
    };

    // A fill chunk carries the one value that its blocks are filled with
    if header.is_fill && header.data_size != FILL_DATA_SIZE {
        return Err(StructureError);
    }
    if header.is_crc || header.is_raw || header.is_fill || header.is_dont_care {
        Ok(header)
    } else {
        Err(StructureError)
    }
}

impl AndroidSparseHeader {
    /// Whether this is what a file header can say.
    pub open spec fn is_well_formed(self) -> bool {
        &&& self.major_version == MAJOR_VERSION
        &&& self.minor_version == MINOR_VERSION
        &&& self.header_size == FILE_HEADER_SIZE
        &&& self.block_size <= u32::MAX
        &&& self.block_size % BLOCK_ALIGNMENT == 0
        &&& self.block_count <= u32::MAX
        &&& self.chunk_count <= u32::MAX
    }

    /// The file header that says this.
    pub open spec fn encode(self, magic: u32, checksum: u32) -> Seq<u8> {
        common::le32_bytes(magic as int) + common::le16_bytes(self.major_version as int)
            + common::le16_bytes(self.minor_version as int) + common::le16_bytes(
            self.header_size as int,
        ) + common::le16_bytes(CHUNK_HEADER_SIZE as int) + common::le32_bytes(
            self.block_size as int,
        ) + common::le32_bytes(self.block_count as int) + common::le32_bytes(
            self.chunk_count as int,
        ) + common::le32_bytes(checksum as int)
    }
}

impl AndroidSparseChunkHeader {
    /// The type of the chunk.
    pub open spec fn chunk_type(self) -> usize {
        if self.is_raw {
            CHUNK_TYPE_RAW
        } else if self.is_fill {
            CHUNK_TYPE_FILL
        } else if self.is_dont_care {
            CHUNK_TYPE_DONT_CARE
        } else {
            CHUNK_TYPE_CRC
        }
    }

    /// Whether this is what a chunk header can say.
    pub open spec fn is_well_formed(self) -> bool {
        &&& self.header_size == CHUNK_HEADER_SIZE
        &&& self.header_size + self.data_size <= u32::MAX
        &&& self.block_count <= u32::MAX
        &&& self.is_raw == (self.chunk_type() == CHUNK_TYPE_RAW)
        &&& self.is_fill == (self.chunk_type() == CHUNK_TYPE_FILL)
        &&& self.is_dont_care == (self.chunk_type() == CHUNK_TYPE_DONT_CARE)
        &&& self.is_crc == (self.chunk_type() == CHUNK_TYPE_CRC)
        &&& self.is_fill ==> self.data_size == FILL_DATA_SIZE
    }

    /// The chunk header that says this.
    pub open spec fn encode(self) -> Seq<u8> {
        common::le16_bytes(self.chunk_type() as int) + common::le16_bytes(0)
            + common::le32_bytes(self.block_count as int) + common::le32_bytes(
            self.header_size + self.data_size,
        )
    }
}

/// A file header reads back as what was written, whatever its magic and its
/// checksum are and whatever is behind it.
#[verifier::rlimit(50)]
pub proof fn law_sparse_header_reads_back(
    header: AndroidSparseHeader,
    magic: u32,
    checksum: u32,
    rest: Seq<u8>,
)
    requires
        header.is_well_formed(),
    ensures
        header.encode(magic, checksum).len() == FILE_HEADER_SIZE,
        is_sparse_header(header.encode(magic, checksum) + rest),
        sparse_header(header.encode(magic, checksum) + rest) == header,
{
    let data = header.encode(magic, checksum) + rest;
    assert(data.subrange(4, 6) =~= common::le16_bytes(header.major_version as int));
    assert(data.subrange(6, 8) =~= common::le16_bytes(header.minor_version as int));
    assert(data.subrange(8, 10) =~= common::le16_bytes(header.header_size as int));
    assert(data.subrange(10, 12) =~= common::le16_bytes(CHUNK_HEADER_SIZE as int));
    assert(data.subrange(12, 16) =~= common::le32_bytes(header.block_size as int));
    assert(data.subrange(16, 20) =~= common::le32_bytes(header.block_count as int));
    assert(data.subrange(20, 24) =~= common::le32_bytes(header.chunk_count as int));
    common::law_le16_reads_back(data, 4, header.major_version as int);
    common::law_le16_reads_back(data, 6, header.minor_version as int);
    common::law_le16_reads_back(data, 8, header.header_size as int);
    common::law_le16_reads_back(data, 10, CHUNK_HEADER_SIZE as int);
    common::law_le32_reads_back(data, 12, header.block_size as int);
    common::law_le32_reads_back(data, 16, header.block_count as int);
    common::law_le32_reads_back(data, 20, header.chunk_count as int);
}

/// A chunk header reads back as what was written, whatever is behind it.
pub proof fn law_chunk_header_reads_back(header: AndroidSparseChunkHeader, rest: Seq<u8>)
    requires
        header.is_well_formed(),
    ensures
        header.encode().len() == CHUNK_HEADER_SIZE,
        is_chunk_header(header.encode() + rest),
        chunk_header(header.encode() + rest) == header,
{
    let data = header.encode() + rest;
    assert(data.subrange(0, 2) =~= common::le16_bytes(header.chunk_type() as int));
    assert(data.subrange(2, 4) =~= common::le16_bytes(0));
    assert(data.subrange(4, 8) =~= common::le32_bytes(header.block_count as int));
    assert(data.subrange(8, 12) =~= common::le32_bytes(header.header_size + header.data_size));
    common::law_le16_reads_back(data, 0, header.chunk_type() as int);
    common::law_le16_reads_back(data, 2, 0);
    common::law_le32_reads_back(data, 4, header.block_count as int);
    common::law_le32_reads_back(data, 8, header.header_size + header.data_size);
}

/// What is read from a header is always something that a header can say.
pub proof fn law_parsed_headers_are_well_formed(data: Seq<u8>)
    ensures
        is_sparse_header(data) ==> sparse_header(data).is_well_formed(),
        is_chunk_header(data) ==> chunk_header(data).is_well_formed(),
{
}

/// A chunk whose total size does not even cover its header is rejected.
pub proof fn law_short_chunk_is_rejected(data: Seq<u8>)
    requires
        common::le32(data, 8) < CHUNK_HEADER_SIZE,
    ensures
        !is_chunk_header(data),
{
}

/// A fill chunk with more or less data than one value to fill with is rejected,
/// one without any data among them.
pub proof fn law_malformed_fill_chunk_is_rejected(data: Seq<u8>)
    requires
        common::le16(data, 0) == CHUNK_TYPE_FILL,
        common::le32(data, 8) != CHUNK_HEADER_SIZE + FILL_DATA_SIZE,
    ensures
        !is_chunk_header(data),
{
}

/// Nothing but a stored chunk header passes for one: the bytes that are accepted are
/// those of a header that says what was read.
pub proof fn law_chunk_header_is_what_was_stored(data: Seq<u8>)
    requires
        is_chunk_header(data),
    ensures
        data.take(12) == chunk_header(data).encode(),
{
    common::law_le16_is_stored_back(data, 0);
    common::law_le16_is_stored_back(data, 2);
    common::law_le32_is_stored_back(data, 4);
    common::law_le32_is_stored_back(data, 8);
    assert(data.take(12) =~= data.subrange(0, 2) + data.subrange(2, 4) + data.subrange(4, 8)
        + data.subrange(8, 12));
}

/// Nothing but a stored file header passes for one, up to the magic and the checksum,
/// which may be anything.
pub proof fn law_sparse_header_is_what_was_stored(data: Seq<u8>)
    requires
        is_sparse_header(data),
    ensures
        exists|magic: u32, checksum: u32|
            data.take(28) == #[trigger] sparse_header(data).encode(magic, checksum),
{
    let magic = common::le32(data, 0) as u32;
    let checksum = common::le32(data, 24) as u32;
    common::law_le32_is_stored_back(data, 0);
    common::law_le16_is_stored_back(data, 4);
    common::law_le16_is_stored_back(data, 6);
    common::law_le16_is_stored_back(data, 8);
    common::law_le16_is_stored_back(data, 10);
    common::law_le32_is_stored_back(data, 12);
    common::law_le32_is_stored_back(data, 16);
    common::law_le32_is_stored_back(data, 20);
    common::law_le32_is_stored_back(data, 24);
    assert(data.take(28) =~= data.subrange(0, 4) + data.subrange(4, 6) + data.subrange(6, 8)
        + data.subrange(8, 10) + data.subrange(10, 12) + data.subrange(12, 16) + data.subrange(
        16,
        20,
    ) + data.subrange(20, 24) + data.subrange(24, 28));
    assert(data.take(28) == sparse_header(data).encode(magic, checksum));
}

/// A file header, byte by byte: which bytes are accepted, and what is read from them.
pub proof fn law_sparse_header_bytes(data: Seq<u8>)
    ensures
        is_sparse_header(data) <==> {
            &&& data.len() >= 28
            &&& data[4] == 1 && data[5] == 0
            &&& data[6] == 0 && data[7] == 0
            &&& data[8] == 28 && data[9] == 0
            &&& data[10] == 12 && data[11] == 0
            &&& data[12] % 4 == 0
        },
        is_sparse_header(data) ==> {
            let header = sparse_header(data);
            &&& header.major_version == 1
            &&& header.minor_version == 0
            &&& header.header_size == 28
            &&& header.block_size == data[12] + 0x100 * data[13] + 0x1_0000 * data[14] + 0x100_0000
                * data[15]
            &&& header.block_count == data[16] + 0x100 * data[17] + 0x1_0000 * data[18]
                + 0x100_0000 * data[19]
            &&& header.chunk_count == data[20] + 0x100 * data[21] + 0x1_0000 * data[22]
                + 0x100_0000 * data[23]
        },
{
}

/// A chunk header, byte by byte: which bytes are accepted, and what is read from them.
pub proof fn law_chunk_header_bytes(data: Seq<u8>)
    ensures
        is_chunk_header(data) <==> {
            let total_size = data[8] + 0x100 * data[9] + 0x1_0000 * data[10] + 0x100_0000
                * data[11];
            &&& data.len() >= 12
            &&& data[1] == 0xCA
            &&& data[0] == 0xC1 || data[0] == 0xC2 || data[0] == 0xC3 || data[0] == 0xC4
            &&& data[2] == 0 && data[3] == 0
            &&& total_size >= 12
            &&& data[0] == 0xC2 ==> total_size == 16
        },
        is_chunk_header(data) ==> {
            let header = chunk_header(data);
            &&& header.header_size == 12
            &&& header.data_size == data[8] + 0x100 * data[9] + 0x1_0000 * data[10] + 0x100_0000
                * data[11] - 12
            &&& header.block_count == data[4] + 0x100 * data[5] + 0x1_0000 * data[6] + 0x100_0000
                * data[7]
            &&& header.is_raw == (data[0] == 0xC1)
            &&& header.is_fill == (data[0] == 0xC2)
            &&& header.is_dont_care == (data[0] == 0xC3)
            &&& header.is_crc == (data[0] == 0xC4)
        },
{
}

} // verus!
