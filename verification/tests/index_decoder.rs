use xz::crc::crc32;
use xz::index::{
    lzma_index_block_count, lzma_index_memusage, lzma_index_total_size,
    lzma_index_uncompressed_size,
};
use xz::index_decoder::{index_uncompressed_size, lzma_index_buffer_decode};
use xz::types::{LZMA_DATA_ERROR, LZMA_MEMLIMIT_ERROR, LZMA_PROG_ERROR};

/// An Index field: indicator, count, records, padding to four bytes, CRC32.
fn index_field(records: &[(u8, u8)]) -> Vec<u8> {
    let mut v = vec![0u8, records.len() as u8];
    for &(u, c) in records {
        v.push(u);
        v.push(c);
    }
    while v.len() % 4 != 0 {
        v.push(0);
    }
    let crc = crc32(&v, 0);
    v.extend_from_slice(&crc.to_le_bytes());
    v
}

#[test]
fn index_buffer_decode_reads_records() {
    let field = index_field(&[(32, 100), (21, 7)]);
    let mut input = vec![0xaa];
    input.extend_from_slice(&field);
    input.push(0xbb);
    let mut memlimit = u64::MAX;
    let mut pos = 1usize;
    let index = lzma_index_buffer_decode(&mut memlimit, &input, &mut pos).unwrap();
    assert_eq!(pos, 1 + field.len());
    assert_eq!(lzma_index_block_count(&index), 2);
    assert_eq!(lzma_index_uncompressed_size(&index), 107);
    assert_eq!(lzma_index_total_size(&index), 32 + 24);
    assert_eq!(memlimit, u64::MAX);
}

#[test]
fn index_buffer_decode_empty_index() {
    let field = index_field(&[]);
    assert_eq!(field.len(), 8);
    let mut memlimit = u64::MAX;
    let mut pos = 0usize;
    let index = lzma_index_buffer_decode(&mut memlimit, &field, &mut pos).unwrap();
    assert_eq!(pos, 8);
    assert_eq!(lzma_index_block_count(&index), 0);
    // Even an empty Index needs more than the smallest limit.
    let mut memlimit = 0;
    let mut pos = 0usize;
    let r = lzma_index_buffer_decode(&mut memlimit, &field, &mut pos);
    assert_eq!(r.err(), Some(LZMA_MEMLIMIT_ERROR));
    assert_eq!(memlimit, lzma_index_memusage(1, 0));
}

#[test]
fn index_buffer_decode_rejects_bad_crc() {
    let mut field = index_field(&[(32, 100)]);
    let last = field.len() - 1;
    field[last] ^= 1;
    let mut memlimit = u64::MAX;
    let mut pos = 0usize;
    let r = lzma_index_buffer_decode(&mut memlimit, &field, &mut pos);
    assert_eq!(r.err(), Some(LZMA_DATA_ERROR));
    assert_eq!(pos, 0);
}

#[test]
fn index_buffer_decode_rejects_truncation_and_bad_records() {
    let field = index_field(&[(32, 100)]);
    let mut memlimit = u64::MAX;
    let mut pos = 0usize;
    let r = lzma_index_buffer_decode(&mut memlimit, &field[..field.len() - 1], &mut pos);
    assert_eq!(r.err(), Some(LZMA_DATA_ERROR));
    // Unpadded Size below the minimum.
    let small = index_field(&[(4, 100)]);
    let r = lzma_index_buffer_decode(&mut memlimit, &small, &mut pos);
    assert_eq!(r.err(), Some(LZMA_DATA_ERROR));
    // Not an Index Indicator.
    let mut wrong = field.clone();
    wrong[0] = 1;
    let r = lzma_index_buffer_decode(&mut memlimit, &wrong, &mut pos);
    assert_eq!(r.err(), Some(LZMA_DATA_ERROR));
    // Nonzero padding.
    let mut padded = field.clone();
    padded[4] = 1;
    let r = lzma_index_buffer_decode(&mut memlimit, &padded, &mut pos);
    assert_eq!(r.err(), Some(LZMA_DATA_ERROR));
    assert_eq!(pos, 0);
}

#[test]
fn index_buffer_decode_memlimit() {
    let field = index_field(&[(32, 100)]);
    let mut memlimit = 100;
    let mut pos = 0usize;
    let r = lzma_index_buffer_decode(&mut memlimit, &field, &mut pos);
    assert_eq!(r.err(), Some(LZMA_MEMLIMIT_ERROR));
    assert_eq!(memlimit, lzma_index_memusage(1, 1));
    assert_eq!(pos, 0);
}

#[test]
fn index_buffer_decode_position_past_end() {
    let mut memlimit = u64::MAX;
    let mut pos = 5usize;
    let r = lzma_index_buffer_decode(&mut memlimit, &[0, 0], &mut pos);
    assert_eq!(r.err(), Some(LZMA_PROG_ERROR));
    assert_eq!(pos, 5);
}

#[test]
fn index_uncompressed_size_of_field() {
    let field = index_field(&[(32, 100), (21, 7)]);
    assert_eq!(index_uncompressed_size(&field), Ok(107));
    assert_eq!(index_uncompressed_size(&field[1..]), Err(LZMA_DATA_ERROR));
}
