use xz::index::{
    lzma_index_append, lzma_index_block_count, lzma_index_init, lzma_index_size,
    lzma_index_total_size, lzma_index_uncompressed_size,
};
use xz::index_encoder::index_encode;
use xz::index_hash::{lzma_index_hash_append, lzma_index_hash_decode, lzma_index_hash_init, lzma_index_hash_size};
use xz::types::{LZMA_DATA_ERROR, LZMA_OK, LZMA_PROG_ERROR, LZMA_STREAM_END};
use xz::xz_stored::{xz_stored_decode, xz_stored_encode};
use xz::types::LZMA_CHECK_SHA256;

#[test]
fn index_append_sequence_sums() {
    let mut i = lzma_index_init();
    assert_eq!((lzma_index_block_count(&i), lzma_index_total_size(&i), lzma_index_uncompressed_size(&i)), (0, 0, 0));
    assert_eq!(lzma_index_append(&mut i, 5, 0), LZMA_OK);
    // A refused append counts for nothing.
    assert_eq!(lzma_index_append(&mut i, 1, 7), LZMA_PROG_ERROR);
    assert_eq!(lzma_index_append(&mut i, 1000, 5000), LZMA_OK);
    assert_eq!(lzma_index_block_count(&i), 2);
    assert_eq!(lzma_index_total_size(&i), 8 + 1000);
    assert_eq!(lzma_index_uncompressed_size(&i), 5000);
}

#[test]
fn index_hash_size_matches_index_size() {
    let mut h = lzma_index_hash_init();
    let mut i = lzma_index_init();
    assert_eq!(lzma_index_hash_size(&h), 8);
    assert_eq!(lzma_index_size(&i), 8);
    assert_eq!(lzma_index_hash_append(&mut h, 1000, 5000), LZMA_OK);
    assert_eq!(lzma_index_append(&mut i, 1000, 5000), LZMA_OK);
    assert_eq!(lzma_index_hash_size(&h), 12);
    assert_eq!(lzma_index_size(&i), 12);
}

#[test]
fn index_hash_rejects_other_record_count() {
    let mut h = lzma_index_hash_init();
    assert_eq!(lzma_index_hash_append(&mut h, 1000, 5000), LZMA_OK);
    let field = index_encode(&[(1000, 5000), (1000, 5000)]);
    let mut pos = 0usize;
    assert_eq!(lzma_index_hash_decode(&mut h, &field, &mut pos), LZMA_DATA_ERROR);
    // The field of the one Block is accepted.
    let mut h = lzma_index_hash_init();
    assert_eq!(lzma_index_hash_append(&mut h, 1000, 5000), LZMA_OK);
    let field = index_encode(&[(1000, 5000)]);
    let mut pos = 0usize;
    assert_eq!(lzma_index_hash_decode(&mut h, &field, &mut pos), LZMA_STREAM_END);
    assert_eq!(pos, field.len());
}

#[test]
fn stored_stream_round_trip_sha256() {
    let data: Vec<u8> = (0..70000u32).map(|k| (k % 251) as u8).collect();
    let s = xz_stored_encode(&data, LZMA_CHECK_SHA256).ok().unwrap();
    assert_eq!(xz_stored_decode(&s).ok().unwrap(), data);
}
