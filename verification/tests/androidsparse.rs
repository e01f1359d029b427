use binwalk::extractors::androidsparse::{
    android_sparse_extractor, extract_android_sparse, extract_chunk, Extraction, OUTFILE_NAME,
};
use binwalk::extractors::common::{ExtractionResult, ExtractorType, InternalExtractor};
use binwalk::structures::androidsparse::{
    parse_android_sparse_chunk_header, parse_android_sparse_header, AndroidSparseChunkHeader,
};

const SPARSE_MAGIC: u32 = 0xED26FF3A;
const FILE_HEADER_SIZE: u16 = 28;
const CHUNK_HEADER_SIZE: u16 = 12;
const CHUNK_TYPE_RAW: u16 = 0xCAC1;
const CHUNK_TYPE_FILL: u16 = 0xCAC2;
const CHUNK_TYPE_DONT_CARE: u16 = 0xCAC3;
const CHUNK_TYPE_CRC: u16 = 0xCAC4;

/// Build an Android sparse file header.
fn sparse_header(block_size: u32, block_count: u32, total_chunks: u32) -> Vec<u8> {
    let mut h = Vec::new();
    h.extend_from_slice(&SPARSE_MAGIC.to_le_bytes());
    h.extend_from_slice(&1u16.to_le_bytes()); // major_version
    h.extend_from_slice(&0u16.to_le_bytes()); // minor_version
    h.extend_from_slice(&FILE_HEADER_SIZE.to_le_bytes());
    h.extend_from_slice(&CHUNK_HEADER_SIZE.to_le_bytes());
    h.extend_from_slice(&block_size.to_le_bytes());
    h.extend_from_slice(&block_count.to_le_bytes());
    h.extend_from_slice(&total_chunks.to_le_bytes());
    h.extend_from_slice(&0u32.to_le_bytes()); // checksum (unchecked)
    h
}

/// Build an Android sparse chunk header.
fn chunk_header(chunk_type: u16, output_block_count: u32, total_size: u32) -> Vec<u8> {
    let mut c = Vec::new();
    c.extend_from_slice(&chunk_type.to_le_bytes());
    c.extend_from_slice(&0u16.to_le_bytes()); // reserved
    c.extend_from_slice(&output_block_count.to_le_bytes());
    c.extend_from_slice(&total_size.to_le_bytes());
    c
}

/// Carry an extraction through, storing the first `storable` appends and no more.
/// Returns the result, the bytes that were stored, and how many appends were asked for.
fn carry_through(mut extraction: Extraction, storable: usize) -> (ExtractionResult, Vec<u8>, usize) {
    let mut stored: Vec<u8> = Vec::new();
    let mut asked: usize = 0;
    loop {
        match extraction {
            Extraction::Finished(result) => return (result, stored, asked),
            Extraction::Suspended(suspended) => {
                let append = suspended.request();
                assert_eq!(append.directory, "out");
                assert_eq!(append.outfile, "unsparsed.img");
                asked += 1;
                if asked <= storable {
                    stored.extend_from_slice(append.data);
                }
                extraction = suspended.resume(asked <= storable);
            }
        }
    }
}

/// Extract with an output that can store everything.
fn extract(img: &[u8]) -> (ExtractionResult, Vec<u8>) {
    let (result, stored, _) = carry_through(extract_android_sparse(img, 0, Some("out")), usize::MAX);
    (result, stored)
}

/// Walk the chunks without writing anything.
fn dry_run(img: &[u8]) -> ExtractionResult {
    match extract_android_sparse(img, 0, None) {
        Extraction::Finished(result) => result,
        Extraction::Suspended(_) => panic!("a dry run asked for something to be written"),
    }
}

fn refused() -> ExtractionResult {
    ExtractionResult { size: None, success: false }
}

// ---------------------------------------------------------------------------
// Chunks whose total size does not cover their header
// ---------------------------------------------------------------------------

#[test]
fn chunk_header_total_size_below_header_size_is_rejected() {
    for bad_total_size in [0u32, 1, 11] {
        let bytes = chunk_header(CHUNK_TYPE_DONT_CARE, 1, bad_total_size);
        let res = parse_android_sparse_chunk_header(&bytes);
        assert!(
            res.is_err(),
            "expected parser to reject total_size={bad_total_size}, got Ok"
        );
    }
}

#[test]
fn underflow_chunk_does_not_panic_during_scan() {
    let mut img = sparse_header(4, 1, 1);
    img.extend(chunk_header(CHUNK_TYPE_DONT_CARE, 1, 0));

    let result = dry_run(&img);
    assert!(!result.success, "malformed chunk should not extract");
}

// ---------------------------------------------------------------------------
// Fill chunks without a value to fill with
// ---------------------------------------------------------------------------

#[test]
fn fill_chunk_with_no_payload_is_rejected_by_parser() {
    let bytes = chunk_header(CHUNK_TYPE_FILL, 1, 12);
    assert!(parse_android_sparse_chunk_header(&bytes).is_err());
}

#[test]
fn fill_chunk_with_no_payload_does_not_hang_extraction() {
    let mut img = sparse_header(4096, 1, 1);
    img.extend(chunk_header(CHUNK_TYPE_FILL, 1, 12)); // total_size==12 -> no payload

    let (result, stored) = extract(&img);
    assert!(
        !result.success,
        "extractor should refuse a FILL chunk with no fill data, not loop on it"
    );
    assert_eq!(stored.len(), 0);
}

#[test]
fn fill_chunk_with_wrong_payload_size_is_rejected() {
    // total_size = 12 + 8 = 20 (8 bytes of fill, the format has 4)
    let bytes = chunk_header(CHUNK_TYPE_FILL, 1, 20);
    assert!(parse_android_sparse_chunk_header(&bytes).is_err());
}

// ---------------------------------------------------------------------------
// Absurd sizes
// ---------------------------------------------------------------------------

#[test]
fn header_with_overflowing_total_size_is_rejected() {
    // u32::MAX & ~3 to satisfy block_size % 4 == 0
    let huge = u32::MAX & !3u32;
    let mut img = sparse_header(huge, huge, 1);
    img.extend(chunk_header(CHUNK_TYPE_DONT_CARE, 1, 12));

    let (result, stored) = extract(&img);
    assert!(
        !result.success,
        "sparse header with overflowing block_count*block_size must be rejected"
    );
    let written = stored.len();
    assert_eq!(written, 0, "extractor wrote {written} bytes for a rejected image");
}

#[test]
fn header_with_oversized_but_nonoverflowing_total_is_rejected() {
    // 256 TB = 2^48; block_size = 64 KiB, block_count = 2^32
    let block_size: u32 = 64 * 1024;
    let block_count: u32 = u32::MAX;
    let mut img = sparse_header(block_size, block_count, 1);
    img.extend(chunk_header(CHUNK_TYPE_DONT_CARE, 1, 12));

    let (result, stored) = extract(&img);
    assert!(!result.success, "256TB-class sparse image must be rejected");
    assert_eq!(stored.len(), 0);
}

#[test]
fn chunk_claiming_more_blocks_than_header_is_rejected() {
    // Header: 1 block total. Chunk: claims a billion blocks.
    let mut img = sparse_header(4096, 1, 1);
    img.extend(chunk_header(CHUNK_TYPE_DONT_CARE, 1_000_000_000, 12));

    let (result, stored) = extract(&img);
    assert!(
        !result.success,
        "chunk block_count > header block_count must be rejected"
    );
    assert_eq!(stored.len(), 0);
}

#[test]
fn raw_chunk_with_mismatched_payload_size_is_rejected() {
    // Header: 16 blocks of 4 bytes. Chunk: claims 16 blocks but carries only 4 bytes.
    let mut img = sparse_header(4, 16, 1);
    img.extend(chunk_header(CHUNK_TYPE_RAW, 16, 12 + 4));
    img.extend_from_slice(&[0u8; 4]);

    let (result, _) = extract(&img);
    assert!(
        !result.success,
        "RAW chunk with payload != block_count*block_size must be rejected"
    );
}

#[test]
fn valid_minimal_sparse_image_extracts_successfully() {
    let block_size: u32 = 4;
    let total_blocks: u32 = 1;
    let mut img = sparse_header(block_size, total_blocks, 1);
    img.extend(chunk_header(CHUNK_TYPE_DONT_CARE, 1, 12));

    let (result, bytes) = extract(&img);
    assert!(result.success, "minimal valid sparse image failed to extract");
    assert_eq!(OUTFILE_NAME, "unsparsed.img");
    assert_eq!(bytes, vec![0u8; block_size as usize]);
}

// ---------------------------------------------------------------------------
// All kinds of chunks
// ---------------------------------------------------------------------------

/// Six blocks of 8 bytes in four chunks: raw, fill, checksum, don't care.
fn mixed_image() -> (Vec<u8>, Vec<u8>) {
    let mut img = sparse_header(8, 6, 4);
    let mut unsparsed: Vec<u8> = Vec::new();
    let raw: Vec<u8> = (1..=16).collect();
    img.extend(chunk_header(CHUNK_TYPE_RAW, 2, 12 + 16));
    img.extend_from_slice(&raw);
    unsparsed.extend_from_slice(&raw);
    img.extend(chunk_header(CHUNK_TYPE_FILL, 3, 12 + 4));
    img.extend_from_slice(&[0xde, 0xad, 0xbe, 0xef]);
    for _ in 0..6 {
        unsparsed.extend_from_slice(&[0xde, 0xad, 0xbe, 0xef]);
    }
    img.extend(chunk_header(CHUNK_TYPE_CRC, 0, 12 + 4));
    img.extend_from_slice(&[1, 2, 3, 4]);
    img.extend(chunk_header(CHUNK_TYPE_DONT_CARE, 1, 12));
    unsparsed.extend_from_slice(&[0u8; 8]);
    (img, unsparsed)
}

#[test]
fn every_kind_of_chunk_is_extracted() {
    let (img, unsparsed) = mixed_image();
    let (result, stored, asked) =
        carry_through(extract_android_sparse(&img, 0, Some("out")), usize::MAX);
    assert_eq!(result, ExtractionResult { size: Some(img.len()), success: true });
    assert_eq!(stored, unsparsed);
    assert_eq!(asked, 1 + 3 + 1);
}

#[test]
fn dry_run_agrees_with_extraction() {
    let (img, _) = mixed_image();
    assert_eq!(dry_run(&img), ExtractionResult { size: Some(100), success: true });
    assert_eq!(extract(&img).0, ExtractionResult { size: Some(100), success: true });
}

#[test]
fn image_is_extracted_from_between_other_data() {
    let (img, unsparsed) = mixed_image();
    let mut file: Vec<u8> = vec![0xff; 37];
    file.extend_from_slice(&img);
    file.extend_from_slice(&[0u8; 64]);
    let (result, stored, _) =
        carry_through(extract_android_sparse(&file, 37, Some("out")), usize::MAX);
    assert_eq!(result, ExtractionResult { size: Some(100), success: true });
    assert_eq!(stored, unsparsed);
}

#[test]
fn extraction_stops_at_what_cannot_be_stored() {
    let (img, unsparsed) = mixed_image();
    for storable in 0..5 {
        let (result, stored, asked) =
            carry_through(extract_android_sparse(&img, 0, Some("out")), storable);
        assert_eq!(result, refused());
        assert_eq!(asked, storable + 1);
        assert_eq!(stored[..], unsparsed[..stored.len()]);
    }
}

#[test]
fn failure_behind_the_declared_chunks_is_a_success() {
    // One chunk is declared, and a second one is there
    let mut img = sparse_header(4, 2, 1);
    img.extend(chunk_header(CHUNK_TYPE_DONT_CARE, 1, 12));
    img.extend(chunk_header(CHUNK_TYPE_DONT_CARE, 1, 12));
    let (result, stored, asked) = carry_through(extract_android_sparse(&img, 0, Some("out")), 1);
    assert_eq!(result, ExtractionResult { size: Some(40), success: true });
    assert_eq!(stored, vec![0u8; 4]);
    assert_eq!(asked, 2);

    // With both chunks stored there is one too many
    assert_eq!(extract(&img), (refused(), vec![0u8; 8]));
}

#[test]
fn chunk_count_must_be_met_exactly() {
    for declared in [0u32, 1, 3] {
        let mut img = sparse_header(4, 2, declared);
        img.extend(chunk_header(CHUNK_TYPE_DONT_CARE, 1, 12));
        img.extend(chunk_header(CHUNK_TYPE_DONT_CARE, 1, 12));
        assert_eq!(dry_run(&img), refused());
    }
    // No chunks declared, and none there
    let img = sparse_header(4, 2, 0);
    assert_eq!(
        dry_run(&img),
        ExtractionResult { size: Some(28), success: true }
    );
}

#[test]
fn truncated_data_end_an_extraction_but_not_a_dry_run() {
    let mut img = sparse_header(4, 2, 1);
    img.extend(chunk_header(CHUNK_TYPE_RAW, 2, 12 + 8));
    img.extend_from_slice(&[7u8; 5]);
    assert_eq!(extract(&img), (refused(), vec![]));
    assert_eq!(
        dry_run(&img),
        ExtractionResult { size: Some(48), success: true }
    );
}

#[test]
fn declared_size_may_reach_the_limit_but_not_pass_it() {
    // 4 MiB in each of 4096 blocks is 16 GiB
    let mut img = sparse_header(4 * 1024 * 1024, 4096, 1);
    img.extend(chunk_header(CHUNK_TYPE_DONT_CARE, 4096, 12));
    assert!(dry_run(&img).success);
    let mut img = sparse_header(4 * 1024 * 1024, 4097, 1);
    img.extend(chunk_header(CHUNK_TYPE_DONT_CARE, 4096, 12));
    assert_eq!(dry_run(&img), refused());
}

#[test]
fn chunks_together_must_not_exceed_the_declared_blocks() {
    let mut img = sparse_header(4, 3, 2);
    img.extend(chunk_header(CHUNK_TYPE_DONT_CARE, 2, 12));
    img.extend(chunk_header(CHUNK_TYPE_DONT_CARE, 2, 12));
    assert_eq!(extract(&img), (refused(), vec![0u8; 8]));
}

#[test]
fn empty_raw_chunk_is_one_empty_append() {
    let mut img = sparse_header(4, 0, 1);
    img.extend(chunk_header(CHUNK_TYPE_RAW, 0, 12));
    let (result, stored, asked) =
        carry_through(extract_android_sparse(&img, 0, Some("out")), usize::MAX);
    assert_eq!(result, ExtractionResult { size: Some(40), success: true });
    assert_eq!(stored.len(), 0);
    assert_eq!(asked, 1);
}

#[test]
fn blocks_without_bytes_are_empty_appends() {
    let mut img = sparse_header(0, 2, 1);
    img.extend(chunk_header(CHUNK_TYPE_FILL, 2, 16));
    img.extend_from_slice(&[1, 2, 3, 4]);
    let (result, stored, asked) =
        carry_through(extract_android_sparse(&img, 0, Some("out")), usize::MAX);
    assert_eq!(result, ExtractionResult { size: Some(44), success: true });
    assert_eq!(stored.len(), 0);
    assert_eq!(asked, 2);
}

#[test]
fn output_never_exceeds_what_the_header_declares() {
    // Four chunks of two blocks each, of which the header leaves room for three
    let mut img = sparse_header(4, 7, 4);
    for _ in 0..4 {
        img.extend(chunk_header(CHUNK_TYPE_FILL, 2, 16));
        img.extend_from_slice(&[9, 9, 9, 9]);
    }
    assert_eq!(extract(&img), (refused(), vec![9u8; 24]));
    // A dry run meets the same chunks
    assert_eq!(dry_run(&img), refused());
    img[20] = 3;
    assert_eq!(dry_run(&img), ExtractionResult { size: Some(76), success: true });
    assert_eq!(extract(&img), (dry_run(&img), vec![9u8; 24]));
}

// ---------------------------------------------------------------------------
// Headers
// ---------------------------------------------------------------------------

#[test]
fn file_header_fields_are_read() {
    let header = parse_android_sparse_header(&sparse_header(0x01020304, 0x05060708, 0x090a0b0c));
    let header = header.unwrap();
    assert_eq!(header.major_version, 1);
    assert_eq!(header.minor_version, 0);
    assert_eq!(header.header_size, 28);
    assert_eq!(header.block_size, 0x01020304);
    assert_eq!(header.block_count, 0x05060708);
    assert_eq!(header.chunk_count, 0x090a0b0c);
}

#[test]
fn malformed_file_headers_are_rejected() {
    let good = sparse_header(4, 1, 1);
    assert!(parse_android_sparse_header(&good).is_ok());
    assert!(parse_android_sparse_header(&good[..27]).is_err());
    for (at, value) in [(4usize, 2u8), (6, 1), (8, 27), (10, 13), (12, 6)] {
        let mut bad = good.clone();
        bad[at] = value;
        assert!(parse_android_sparse_header(&bad).is_err(), "byte {at}");
        assert_eq!(dry_run(&bad), refused());
    }
    assert_eq!(dry_run(&[]), refused());
}

#[test]
fn chunk_header_fields_are_read() {
    let header = parse_android_sparse_chunk_header(&chunk_header(CHUNK_TYPE_RAW, 5, 0x01000020));
    assert_eq!(
        header,
        Ok(AndroidSparseChunkHeader {
            header_size: 12,
            data_size: 0x01000014,
            block_count: 5,
            is_crc: false,
            is_raw: true,
            is_fill: false,
            is_dont_care: false,
        })
    );
    let crc = parse_android_sparse_chunk_header(&chunk_header(CHUNK_TYPE_CRC, 0, 16)).unwrap();
    assert!(crc.is_crc && !crc.is_raw && !crc.is_fill && !crc.is_dont_care);
}

#[test]
fn malformed_chunk_headers_are_rejected() {
    let good = chunk_header(CHUNK_TYPE_DONT_CARE, 1, 12);
    assert!(parse_android_sparse_chunk_header(&good).is_ok());
    assert!(parse_android_sparse_chunk_header(&good[..11]).is_err());
    let mut reserved = good.clone();
    reserved[2] = 1;
    assert!(parse_android_sparse_chunk_header(&reserved).is_err());
    assert!(parse_android_sparse_chunk_header(&chunk_header(0xCAC5, 1, 12)).is_err());
    assert!(parse_android_sparse_chunk_header(&chunk_header(0xCAC0, 1, 12)).is_err());
}

// ---------------------------------------------------------------------------
// Single chunks
// ---------------------------------------------------------------------------

#[test]
fn fill_blocks_are_whole_copies_of_the_value() {
    let sparse = parse_android_sparse_header(&sparse_header(8, 2, 1)).unwrap();
    let fill = AndroidSparseChunkHeader {
        header_size: 12,
        data_size: 3,
        block_count: 2,
        is_crc: false,
        is_raw: false,
        is_fill: true,
        is_dont_care: false,
    };
    let output = extract_chunk(&sparse, &fill, &[1, 2, 3]).unwrap();
    assert_eq!(output.times, 2);
    assert_eq!(output.block.as_slice(), [1, 2, 3, 1, 2, 3, 1, 2, 3]);
    assert!(extract_chunk(&sparse, &fill, &[]).is_none());
}

#[test]
fn android_sparse_extractor_is_internal() {
    let mut img = sparse_header(4, 1, 1);
    img.extend(chunk_header(CHUNK_TYPE_DONT_CARE, 1, 12));
    match android_sparse_extractor().utility {
        ExtractorType::Nothing => panic!("Invalid extractor type"),
        ExtractorType::External(cmd) => panic!("External extractor '{}'", cmd),
        ExtractorType::Internal(extractor) => {
            assert_eq!(extractor, InternalExtractor::AndroidSparse);
            let (result, _, _) = carry_through(extractor.extract(&img, 0, None), 0);
            assert_eq!(result, ExtractionResult { size: Some(40), success: true });
        }
    }
}
