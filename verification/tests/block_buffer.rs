use xz::types::{
    COMPRESSED_SIZE_MAX, LZMA_BLOCK_HEADER_SIZE_MAX, LZMA_CHECK_SIZE_MAX, LZMA_VLI_MAX,
};

#[test]
fn compressed_size_max_matches_c_masking() {
    assert_eq!(
        COMPRESSED_SIZE_MAX,
        (LZMA_VLI_MAX - LZMA_BLOCK_HEADER_SIZE_MAX as u64 - LZMA_CHECK_SIZE_MAX as u64) & !3u64
    );
    assert_eq!(COMPRESSED_SIZE_MAX & 3, 0);
}

use xz::block::{
    lzma_block, lzma_block_buffer_bound, lzma_block_buffer_bound64, lzma_block_compressed_size,
    lzma_block_total_size, lzma_block_unpadded_size, size_t_bound_or_zero,
    size_t_bound_or_zero_with_max, HEADERS_BOUND,
};
use xz::filter::{Filter, FilterOptions};
use xz::types::{LZMA_CHECK_CRC64, LZMA_DATA_ERROR, LZMA_OK, LZMA_PROG_ERROR, LZMA_VLI_UNKNOWN};

#[test]
fn block_buffer_bound_rejects_values_over_size_t_max() {
    assert_eq!(size_t_bound_or_zero(123), 123 as usize);

    let simulated_32_bit_size_max = u32::MAX as u64;
    assert_eq!(
        size_t_bound_or_zero_with_max(simulated_32_bit_size_max + 1, simulated_32_bit_size_max),
        0
    );
}

#[test]
fn block_buffer_bound_of_small_inputs() {
    // One uncompressed chunk: 3 bytes of chunk header and 1 end byte.
    assert_eq!(lzma_block_buffer_bound64(0), HEADERS_BOUND + 4);
    assert_eq!(lzma_block_buffer_bound64(100), HEADERS_BOUND + 104);
    assert_eq!(lzma_block_buffer_bound64(65536), HEADERS_BOUND + 65540);
    assert_eq!(lzma_block_buffer_bound64(65537), HEADERS_BOUND + 65544);
    assert_eq!(lzma_block_buffer_bound(100), 92 + 104);
    assert_eq!(lzma_block_buffer_bound64(COMPRESSED_SIZE_MAX + 1), 0);
    assert_eq!(lzma_block_buffer_bound64(u64::MAX), 0);
}

#[test]
fn block_sizes_follow_header_data_and_check() {
    let mut b = lzma_block {
        version: 0,
        header_size: 12,
        check: LZMA_CHECK_CRC64,
        compressed_size: 101,
        uncompressed_size: LZMA_VLI_UNKNOWN,
        filters: [Filter { id: LZMA_VLI_UNKNOWN, options: FilterOptions::Absent }; 5],
        ignore_check: false,
        raw_check: [0; 64],
    };
    assert_eq!(lzma_block_unpadded_size(&b), 12 + 101 + 8);
    assert_eq!(lzma_block_total_size(&b), 124);

    b.compressed_size = LZMA_VLI_UNKNOWN;
    assert_eq!(lzma_block_unpadded_size(&b), LZMA_VLI_UNKNOWN);
    assert_eq!(lzma_block_total_size(&b), LZMA_VLI_UNKNOWN);
    assert_eq!(lzma_block_compressed_size(&mut b, 121), LZMA_OK);
    assert_eq!(b.compressed_size, 101);
    assert_eq!(lzma_block_compressed_size(&mut b, 122), LZMA_DATA_ERROR);
    assert_eq!(b.compressed_size, 101);
    assert_eq!(lzma_block_compressed_size(&mut b, 20), LZMA_DATA_ERROR);

    b.header_size = 13;
    assert_eq!(lzma_block_unpadded_size(&b), 0);
    assert_eq!(lzma_block_compressed_size(&mut b, 121), LZMA_PROG_ERROR);
}
