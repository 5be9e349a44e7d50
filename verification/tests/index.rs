use xz::index::{
    lzma_index_append, lzma_index_block_count, lzma_index_cat, lzma_index_checks, lzma_index_dup,
    lzma_index_file_size, lzma_index_init, lzma_index_memusage, lzma_index_memused,
    lzma_index_padding_size, lzma_index_prealloc, lzma_index_size, lzma_index_stream_count,
    lzma_index_stream_flags, lzma_index_stream_padding, lzma_index_stream_size,
    lzma_index_total_size, lzma_index_uncompressed_size, INDEX_GROUP_SIZE, PREALLOC_MAX,
};
use xz::stream_flags::StreamFlags;
use xz::types::{
    LZMA_CHECK_CRC32, LZMA_CHECK_CRC64, LZMA_DATA_ERROR, LZMA_OK, LZMA_OPTIONS_ERROR,
    LZMA_PROG_ERROR, LZMA_VLI_MAX, LZMA_VLI_UNKNOWN, UNPADDED_SIZE_MAX, UNPADDED_SIZE_MIN,
};

#[test]
fn index_prealloc_zero_keeps_append_usable() {
    let mut index = lzma_index_init();

    lzma_index_prealloc(&mut index, 0);
    assert_eq!(index.prealloc, INDEX_GROUP_SIZE);

    let ret = lzma_index_append(&mut index, UNPADDED_SIZE_MIN, 0);
    assert_eq!(ret, LZMA_OK);
}

#[test]
fn index_prealloc_is_clamped() {
    let mut index = lzma_index_init();
    lzma_index_prealloc(&mut index, u64::MAX);
    assert_eq!(index.prealloc, PREALLOC_MAX);
    lzma_index_prealloc(&mut index, 3);
    assert_eq!(index.prealloc, 3);
    for _ in 0..4 {
        assert_eq!(lzma_index_append(&mut index, 20, 7), LZMA_OK);
    }
    // The first group took the three records asked for, the second the default.
    assert_eq!(index.streams[0].groups.len(), 2);
    assert_eq!(index.streams[0].groups[0].allocated, 3);
    assert_eq!(index.prealloc, INDEX_GROUP_SIZE);
}

#[test]
fn empty_index_sizes() {
    let index = lzma_index_init();
    assert_eq!(lzma_index_block_count(&index), 0);
    assert_eq!(lzma_index_stream_count(&index), 1);
    assert_eq!(lzma_index_size(&index), 8);
    assert_eq!(lzma_index_total_size(&index), 0);
    assert_eq!(lzma_index_stream_size(&index), 32);
    assert_eq!(lzma_index_file_size(&index), 32);
    assert_eq!(lzma_index_uncompressed_size(&index), 0);
    assert_eq!(lzma_index_padding_size(&index), 2);
    assert_eq!(lzma_index_checks(&index), 0);
}

#[test]
fn append_adds_up_the_blocks() {
    let mut index = lzma_index_init();
    assert_eq!(lzma_index_append(&mut index, 17, 100), LZMA_OK);
    assert_eq!(lzma_index_append(&mut index, 1000, 200000), LZMA_OK);
    assert_eq!(lzma_index_block_count(&index), 2);
    assert_eq!(lzma_index_total_size(&index), 20 + 1000);
    assert_eq!(lzma_index_uncompressed_size(&index), 200100);
    // Indicator, count, records 1+1 and 2+3 bytes, CRC32: 1+1+2+5+4 = 13, padded to 16.
    assert_eq!(lzma_index_size(&index), 16);
    assert_eq!(lzma_index_padding_size(&index), 3);
    assert_eq!(lzma_index_stream_size(&index), 12 + 1020 + 16 + 12);
    assert_eq!(lzma_index_file_size(&index), 1060);
    let recs = &index.streams[0].records;
    assert_eq!(recs[0].unpadded_sum, 17);
    assert_eq!(recs[0].uncompressed_sum, 100);
    assert_eq!(recs[1].unpadded_sum, 20 + 1000);
    assert_eq!(recs[1].uncompressed_sum, 200100);
}

#[test]
fn append_refuses_bad_sizes() {
    let mut index = lzma_index_init();
    assert_eq!(lzma_index_append(&mut index, UNPADDED_SIZE_MIN - 1, 0), LZMA_PROG_ERROR);
    assert_eq!(lzma_index_append(&mut index, UNPADDED_SIZE_MAX + 1, 0), LZMA_PROG_ERROR);
    assert_eq!(lzma_index_append(&mut index, 10, LZMA_VLI_MAX + 1), LZMA_PROG_ERROR);
    assert_eq!(lzma_index_append(&mut index, 10, LZMA_VLI_MAX), LZMA_OK);
    assert_eq!(lzma_index_append(&mut index, 10, 1), LZMA_DATA_ERROR);
    assert_eq!(lzma_index_block_count(&index), 1);
    assert_eq!(lzma_index_append(&mut index, UNPADDED_SIZE_MAX, 0), LZMA_DATA_ERROR);
    assert_eq!(lzma_index_block_count(&index), 1);
}

#[test]
fn stream_flags_and_padding() {
    let mut index = lzma_index_init();
    let bad = StreamFlags { version: 1, backward_size: LZMA_VLI_UNKNOWN, check: 0 };
    assert_eq!(lzma_index_stream_flags(&mut index, &bad), LZMA_OPTIONS_ERROR);
    let bad_check = StreamFlags { version: 0, backward_size: LZMA_VLI_UNKNOWN, check: 16 };
    assert_eq!(lzma_index_stream_flags(&mut index, &bad_check), LZMA_PROG_ERROR);
    let flags = StreamFlags { version: 0, backward_size: LZMA_VLI_UNKNOWN, check: LZMA_CHECK_CRC64 };
    assert_eq!(lzma_index_stream_flags(&mut index, &flags), LZMA_OK);
    assert_eq!(lzma_index_checks(&index), 1 << LZMA_CHECK_CRC64);

    assert_eq!(lzma_index_stream_padding(&mut index, 3), LZMA_PROG_ERROR);
    assert_eq!(lzma_index_stream_padding(&mut index, 8), LZMA_OK);
    assert_eq!(lzma_index_file_size(&index), 40);
    assert_eq!(lzma_index_stream_padding(&mut index, LZMA_VLI_MAX - 3), LZMA_DATA_ERROR);
    assert_eq!(lzma_index_file_size(&index), 40);
    assert_eq!(lzma_index_stream_padding(&mut index, 0), LZMA_OK);
    assert_eq!(lzma_index_file_size(&index), 32);
}

#[test]
fn cat_places_the_second_index_after_the_first() {
    let mut a = lzma_index_init();
    assert_eq!(lzma_index_append(&mut a, 30, 50), LZMA_OK);
    let fa = StreamFlags { version: 0, backward_size: LZMA_VLI_UNKNOWN, check: LZMA_CHECK_CRC32 };
    assert_eq!(lzma_index_stream_flags(&mut a, &fa), LZMA_OK);
    let a_file = lzma_index_file_size(&a);

    let mut b = lzma_index_init();
    assert_eq!(lzma_index_append(&mut b, 40, 70), LZMA_OK);
    assert_eq!(lzma_index_append(&mut b, 41, 0), LZMA_OK);
    let fb = StreamFlags { version: 0, backward_size: LZMA_VLI_UNKNOWN, check: LZMA_CHECK_CRC64 };
    assert_eq!(lzma_index_stream_flags(&mut b, &fb), LZMA_OK);
    let b_file = lzma_index_file_size(&b);

    assert_eq!(lzma_index_cat(&mut a, b), LZMA_OK);
    assert_eq!(lzma_index_stream_count(&a), 2);
    assert_eq!(lzma_index_block_count(&a), 3);
    assert_eq!(lzma_index_uncompressed_size(&a), 120);
    assert_eq!(lzma_index_total_size(&a), 32 + 40 + 44);
    assert_eq!(lzma_index_file_size(&a), a_file + b_file);
    assert_eq!(a.streams[1].number, 2);
    assert_eq!(a.streams[1].node.compressed_base, a_file);
    assert_eq!(a.streams[1].node.uncompressed_base, 50);
    assert_eq!(a.streams[1].block_number_base, 1);
    assert_eq!(lzma_index_checks(&a), (1 << LZMA_CHECK_CRC32) | (1 << LZMA_CHECK_CRC64));
}

#[test]
fn cat_refuses_an_overlong_file() {
    let mut a = lzma_index_init();
    assert_eq!(lzma_index_stream_padding(&mut a, (LZMA_VLI_MAX - 40) & !3), LZMA_OK);
    let b = lzma_index_init();
    assert_eq!(lzma_index_cat(&mut a, b), LZMA_DATA_ERROR);
    assert_eq!(lzma_index_stream_count(&a), 1);
}

#[test]
fn dup_copies_streams_and_blocks() {
    let mut a = lzma_index_init();
    for k in 1..5u64 {
        assert_eq!(lzma_index_append(&mut a, 10 * k, k), LZMA_OK);
    }
    let b = lzma_index_dup(&a).unwrap();
    assert_eq!(lzma_index_block_count(&b), 4);
    assert_eq!(lzma_index_uncompressed_size(&b), 10);
    assert_eq!(lzma_index_file_size(&b), lzma_index_file_size(&a));
    assert_eq!(b.streams[0].records, a.streams[0].records);
    assert_eq!(b.streams[0].groups.len(), 1);
    assert_eq!(b.streams[0].groups[0].allocated, 4);
}

#[test]
fn memusage_formula() {
    assert_eq!(lzma_index_memusage(0, 0), u64::MAX);
    assert_eq!(lzma_index_memusage(1, 0), 112 + 296);
    assert_eq!(lzma_index_memusage(1, 1), 112 + 296 + 8288);
    assert_eq!(lzma_index_memusage(2, 513), 112 + 2 * 296 + 2 * 8288);
    assert_eq!(lzma_index_memusage(u32::MAX as u64 + 1, 0), u64::MAX);
    assert_eq!(lzma_index_memusage(1, LZMA_VLI_MAX + 1), u64::MAX);
    assert_eq!(lzma_index_memusage(1, LZMA_VLI_MAX), u64::MAX);
    let index = lzma_index_init();
    assert_eq!(lzma_index_memused(&index), 112 + 296);
}

use xz::index::{
    lzma_index_iter_init, lzma_index_iter_locate, lzma_index_iter_next, lzma_index_iter_rewind,
    LZMA_INDEX_ITER_ANY, LZMA_INDEX_ITER_BLOCK, LZMA_INDEX_ITER_NONEMPTY_BLOCK,
    LZMA_INDEX_ITER_STREAM,
};

fn two_stream_index() -> xz::index::lzma_index_s {
    let mut a = lzma_index_init();
    assert_eq!(lzma_index_append(&mut a, 30, 50), LZMA_OK);
    assert_eq!(lzma_index_append(&mut a, 21, 0), LZMA_OK);
    assert_eq!(lzma_index_append(&mut a, 22, 8), LZMA_OK);
    let empty = lzma_index_init();
    assert_eq!(lzma_index_cat(&mut a, empty), LZMA_OK);
    let mut c = lzma_index_init();
    assert_eq!(lzma_index_append(&mut c, 40, 70), LZMA_OK);
    assert_eq!(lzma_index_cat(&mut a, c), LZMA_OK);
    a
}

#[test]
fn iterate_blocks_and_streams() {
    let index = two_stream_index();
    let mut it = lzma_index_iter_init();
    assert!(!lzma_index_iter_next(&mut it, &index, LZMA_INDEX_ITER_BLOCK));
    assert_eq!(it.stream.number, 1);
    assert_eq!(it.block.number_in_file, 1);
    assert_eq!(it.block.uncompressed_size, 50);
    assert_eq!(it.block.unpadded_size, 30);
    assert_eq!(it.block.total_size, 32);
    assert_eq!(it.block.compressed_file_offset, 12);
    assert!(!lzma_index_iter_next(&mut it, &index, LZMA_INDEX_ITER_BLOCK));
    assert_eq!(it.block.number_in_stream, 2);
    assert_eq!(it.block.compressed_stream_offset, 12 + 32);
    assert_eq!(it.block.uncompressed_stream_offset, 50);
    assert_eq!(it.block.uncompressed_size, 0);
    assert!(!lzma_index_iter_next(&mut it, &index, LZMA_INDEX_ITER_BLOCK));
    assert_eq!(it.block.number_in_stream, 3);
    // The empty second Stream is skipped by the Block mode.
    assert!(!lzma_index_iter_next(&mut it, &index, LZMA_INDEX_ITER_BLOCK));
    assert_eq!(it.stream.number, 3);
    assert_eq!(it.block.number_in_file, 4);
    assert_eq!(it.block.uncompressed_file_offset, 58);
    assert!(lzma_index_iter_next(&mut it, &index, LZMA_INDEX_ITER_BLOCK));
    assert_eq!(it.stream.number, 3);

    lzma_index_iter_rewind(&mut it);
    let mut seen = Vec::new();
    while !lzma_index_iter_next(&mut it, &index, LZMA_INDEX_ITER_ANY) {
        seen.push((it.stream.number, it.pos.unwrap().record));
    }
    assert_eq!(seen, vec![(1, 0), (1, 1), (1, 2), (2, 0), (3, 0)]);

    lzma_index_iter_rewind(&mut it);
    let mut streams = Vec::new();
    while !lzma_index_iter_next(&mut it, &index, LZMA_INDEX_ITER_STREAM) {
        streams.push((it.stream.number, it.stream.block_count, it.stream.uncompressed_size));
    }
    assert_eq!(streams, vec![(1, 3, 58), (2, 0, 0), (3, 1, 70)]);

    lzma_index_iter_rewind(&mut it);
    let mut nonempty = Vec::new();
    while !lzma_index_iter_next(&mut it, &index, LZMA_INDEX_ITER_NONEMPTY_BLOCK) {
        nonempty.push(it.block.number_in_file);
    }
    assert_eq!(nonempty, vec![1, 3, 4]);
    assert!(lzma_index_iter_next(&mut it, &index, 4));
}

#[test]
fn locate_finds_the_block_of_an_offset() {
    let index = two_stream_index();
    let mut it = lzma_index_iter_init();
    assert!(!lzma_index_iter_locate(&mut it, &index, 0));
    assert_eq!(it.block.number_in_file, 1);
    assert!(!lzma_index_iter_locate(&mut it, &index, 49));
    assert_eq!(it.block.number_in_file, 1);
    // Offset 50 is the first byte of the third Block; the second holds none.
    assert!(!lzma_index_iter_locate(&mut it, &index, 50));
    assert_eq!(it.block.number_in_file, 3);
    assert!(!lzma_index_iter_locate(&mut it, &index, 58));
    assert_eq!(it.stream.number, 3);
    assert_eq!(it.block.number_in_file, 4);
    assert!(!lzma_index_iter_locate(&mut it, &index, 127));
    assert!(lzma_index_iter_locate(&mut it, &index, 128));
    assert_eq!(it.block.number_in_file, 4);
}
