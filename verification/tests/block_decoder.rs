use xz::block::lzma_block;
use xz::block_decoder::{lzma_block_decoder_init, SEQ_CHECK, SEQ_CODE, SEQ_PADDING};
use xz::crc::crc32;
use xz::filter::{Filter, FilterOptions};
use xz::types::{
    LZMA_CHECK_CRC32, LZMA_CHECK_NONE, LZMA_DATA_ERROR, LZMA_OK, LZMA_PROG_ERROR,
    LZMA_STREAM_END, LZMA_VLI_MAX, LZMA_VLI_UNKNOWN,
};

const END: Filter = Filter { id: LZMA_VLI_UNKNOWN, options: FilterOptions::Absent };

fn block(check: u32, compressed: u64, uncompressed: u64) -> lzma_block {
    lzma_block {
        version: 1,
        header_size: 12,
        check,
        compressed_size: compressed,
        uncompressed_size: uncompressed,
        filters: [END; 5],
        ignore_check: false,
        raw_check: [0; 64],
    }
}

#[test]
fn init_limits() {
    let b = block(LZMA_CHECK_CRC32, LZMA_VLI_UNKNOWN, LZMA_VLI_UNKNOWN);
    let c = lzma_block_decoder_init(&b).ok().unwrap();
    assert_eq!(c.sequence, SEQ_CODE);
    assert_eq!(c.compressed_limit, (LZMA_VLI_MAX - 3) - 12 - 4);
    assert_eq!(c.uncompressed_limit, LZMA_VLI_MAX);
    assert_eq!(c.block_decode_limits(100, 7), (100, 7));

    let b = block(LZMA_CHECK_CRC32, 9, 5);
    let c = lzma_block_decoder_init(&b).ok().unwrap();
    assert_eq!(c.block_decode_limits(100, 100), (9, 5));
}

#[test]
fn init_rejects_invalid_block() {
    let mut b = block(LZMA_CHECK_CRC32, LZMA_VLI_UNKNOWN, LZMA_VLI_UNKNOWN);
    b.header_size = 5;
    assert_eq!(lzma_block_decoder_init(&b).err(), Some(LZMA_PROG_ERROR));
    let mut b = block(LZMA_CHECK_CRC32, LZMA_VLI_UNKNOWN, LZMA_VLI_UNKNOWN);
    b.uncompressed_size = LZMA_VLI_MAX + 1;
    assert_eq!(lzma_block_decoder_init(&b).err(), Some(LZMA_PROG_ERROR));
}

#[test]
fn whole_block_with_crc32() {
    let mut b = block(LZMA_CHECK_CRC32, LZMA_VLI_UNKNOWN, LZMA_VLI_UNKNOWN);
    let mut c = lzma_block_decoder_init(&b).ok().unwrap();
    // The filter chain read 9 bytes and produced "hello", then ended.
    assert_eq!(c.block_decode_code(&mut b, b"hel", 4, LZMA_OK, false, false), Some(LZMA_OK));
    assert_eq!(c.block_decode_code(&mut b, b"lo", 5, LZMA_STREAM_END, true, true), None);
    assert_eq!(c.sequence, SEQ_PADDING);
    assert_eq!(b.compressed_size, 9);
    assert_eq!(b.uncompressed_size, 5);
    let mut tail = vec![0u8, 0, 0];
    tail.extend_from_slice(&crc32(b"hello", 0).to_le_bytes());
    tail.push(0x77);
    let mut pos = 0usize;
    assert_eq!(c.block_decode_tail(&mut b, &tail, &mut pos), LZMA_STREAM_END);
    assert_eq!(pos, 7);
    assert_eq!(&b.raw_check[..4], &crc32(b"hello", 0).to_le_bytes());
}

#[test]
fn tail_in_pieces() {
    let mut b = block(LZMA_CHECK_CRC32, LZMA_VLI_UNKNOWN, LZMA_VLI_UNKNOWN);
    let mut c = lzma_block_decoder_init(&b).ok().unwrap();
    assert_eq!(c.block_decode_code(&mut b, b"hello", 9, LZMA_STREAM_END, true, true), None);
    let mut tail = vec![0u8, 0, 0];
    tail.extend_from_slice(&crc32(b"hello", 0).to_le_bytes());
    let mut pos = 0usize;
    assert_eq!(c.block_decode_tail(&mut b, &tail[..2], &mut pos), LZMA_OK);
    assert_eq!((pos, c.compressed_size, c.sequence), (2, 11, SEQ_PADDING));
    let mut pos = 2usize;
    assert_eq!(c.block_decode_tail(&mut b, &tail[..5], &mut pos), LZMA_OK);
    assert_eq!((pos, c.sequence, c.check_pos), (5, SEQ_CHECK, 2));
    let mut pos = 5usize;
    assert_eq!(c.block_decode_tail(&mut b, &tail, &mut pos), LZMA_STREAM_END);
    assert_eq!(pos, 7);
}

#[test]
fn wrong_check_is_data_error() {
    let mut b = block(LZMA_CHECK_CRC32, LZMA_VLI_UNKNOWN, LZMA_VLI_UNKNOWN);
    let mut c = lzma_block_decoder_init(&b).ok().unwrap();
    assert_eq!(c.block_decode_code(&mut b, b"hello", 8, LZMA_STREAM_END, true, true), None);
    let mut crc = crc32(b"hello", 0).to_le_bytes();
    crc[3] ^= 1;
    let mut pos = 0usize;
    assert_eq!(c.block_decode_tail(&mut b, &crc, &mut pos), LZMA_DATA_ERROR);
    assert_eq!(pos, 4);
}

#[test]
fn ignored_check_is_not_compared() {
    let mut b = block(LZMA_CHECK_CRC32, LZMA_VLI_UNKNOWN, LZMA_VLI_UNKNOWN);
    b.ignore_check = true;
    let mut c = lzma_block_decoder_init(&b).ok().unwrap();
    assert_eq!(c.block_decode_code(&mut b, b"hello", 5, LZMA_STREAM_END, true, true), None);
    let tail = [0u8, 0, 0, 1, 2, 3, 4];
    let mut pos = 0usize;
    assert_eq!(c.block_decode_tail(&mut b, &tail, &mut pos), LZMA_STREAM_END);
    assert_eq!(&b.raw_check[..4], &[1, 2, 3, 4]);
}

#[test]
fn nonzero_padding_is_data_error() {
    let mut b = block(LZMA_CHECK_NONE, LZMA_VLI_UNKNOWN, LZMA_VLI_UNKNOWN);
    let mut c = lzma_block_decoder_init(&b).ok().unwrap();
    assert_eq!(c.block_decode_code(&mut b, b"x", 5, LZMA_STREAM_END, true, true), None);
    let mut pos = 0usize;
    assert_eq!(c.block_decode_tail(&mut b, &[0, 9, 0], &mut pos), LZMA_DATA_ERROR);
    assert_eq!(pos, 2);
}

#[test]
fn no_check_ends_after_padding() {
    let mut b = block(LZMA_CHECK_NONE, LZMA_VLI_UNKNOWN, LZMA_VLI_UNKNOWN);
    let mut c = lzma_block_decoder_init(&b).ok().unwrap();
    assert_eq!(c.block_decode_code(&mut b, b"x", 6, LZMA_STREAM_END, true, true), None);
    let mut pos = 0usize;
    assert_eq!(c.block_decode_tail(&mut b, &[0, 0, 5], &mut pos), LZMA_STREAM_END);
    assert_eq!(pos, 2);
}

#[test]
fn sizes_must_match_the_header() {
    let mut b = block(LZMA_CHECK_NONE, 8, 5);
    let mut c = lzma_block_decoder_init(&b).ok().unwrap();
    // Both stated sizes reached while the decoder says it is not done.
    assert_eq!(c.block_decode_code(&mut b, b"hello", 8, LZMA_OK, false, false), Some(LZMA_DATA_ERROR));

    let mut b = block(LZMA_CHECK_NONE, 8, 5);
    let mut c = lzma_block_decoder_init(&b).ok().unwrap();
    // The data ended short of the stated uncompressed size.
    assert_eq!(c.block_decode_code(&mut b, b"hell", 8, LZMA_STREAM_END, true, true), Some(LZMA_DATA_ERROR));
    assert_eq!(b.uncompressed_size, 5);
}
