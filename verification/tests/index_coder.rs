use xz::crc::crc32;
use xz::index::{
    lzma_index_block_count, lzma_index_memusage, lzma_index_total_size,
    lzma_index_uncompressed_size,
};
use xz::index_coder::{index_decode, index_decoder_memconfig, lzma_index_decoder};
use xz::types::{LZMA_DATA_ERROR, LZMA_MEMLIMIT_ERROR, LZMA_OK, LZMA_STREAM_END};

fn index_field(records: &[(u8, u8)]) -> Vec<u8> {
    let mut v = vec![0u8, records.len() as u8];
    for &(u, c) in records {
        v.push(u);
        v.push(c);
    }
    while v.len() % 4 != 0 {
        v.push(0);
    }
    let crc = crc32(&v, 0);
    v.extend_from_slice(&crc.to_le_bytes());
    v
}

#[test]
fn index_decoder_reads_field_at_once() {
    let field = index_field(&[(32, 100), (21, 7)]);
    let mut input = field.clone();
    input.extend_from_slice(&[1, 2, 3]);
    let mut c = lzma_index_decoder(u64::MAX);
    let mut pos = 0usize;
    assert_eq!(index_decode(&mut c, &input, &mut pos), LZMA_STREAM_END);
    assert_eq!(pos, field.len());
    let i = c.into_index();
    assert_eq!(lzma_index_block_count(&i), 2);
    assert_eq!(lzma_index_uncompressed_size(&i), 107);
    assert_eq!(lzma_index_total_size(&i), 32 + 24);
}

#[test]
fn index_decoder_reads_field_byte_by_byte() {
    let field = index_field(&[(32, 100), (21, 7), (9, 0)]);
    let mut c = lzma_index_decoder(u64::MAX);
    for k in 0..field.len() {
        let mut pos = k;
        let ret = index_decode(&mut c, &field[..k + 1], &mut pos);
        assert_eq!(pos, k + 1);
        if k + 1 == field.len() {
            assert_eq!(ret, LZMA_STREAM_END);
        } else {
            assert_eq!(ret, LZMA_OK);
        }
    }
    let i = c.into_index();
    assert_eq!(lzma_index_block_count(&i), 3);
    assert_eq!(lzma_index_uncompressed_size(&i), 107);
}

#[test]
fn index_decoder_empty_input_asks_for_more() {
    let mut c = lzma_index_decoder(u64::MAX);
    let mut pos = 0usize;
    assert_eq!(index_decode(&mut c, &[], &mut pos), LZMA_OK);
    assert_eq!(pos, 0);
}

#[test]
fn index_decoder_fails_at_first_bad_byte() {
    // Bad indicator.
    let mut c = lzma_index_decoder(u64::MAX);
    let mut pos = 0usize;
    assert_eq!(index_decode(&mut c, &[1, 0, 0, 0], &mut pos), LZMA_DATA_ERROR);
    assert_eq!(pos, 1);

    // Nonzero padding: the second padding byte is 5.
    let mut field = index_field(&[(32, 100), (21, 7)]);
    field[7] = 5;
    let mut c = lzma_index_decoder(u64::MAX);
    let mut pos = 0usize;
    assert_eq!(index_decode(&mut c, &field, &mut pos), LZMA_DATA_ERROR);
    assert_eq!(pos, 8);

    // Unpadded Size too small.
    let field = index_field(&[(4, 100)]);
    let mut c = lzma_index_decoder(u64::MAX);
    let mut pos = 0usize;
    assert_eq!(index_decode(&mut c, &field, &mut pos), LZMA_DATA_ERROR);
    assert_eq!(pos, 3);

    // Wrong CRC32 in its third byte.
    let mut field = index_field(&[(32, 100)]);
    let l = field.len();
    field[l - 2] ^= 1;
    let mut c = lzma_index_decoder(u64::MAX);
    let mut pos = 0usize;
    assert_eq!(index_decode(&mut c, &field, &mut pos), LZMA_DATA_ERROR);
    assert_eq!(pos, l - 1);
}

#[test]
fn index_decoder_memory_limit() {
    let field = index_field(&[(32, 100)]);
    let need = lzma_index_memusage(1, 1);
    let mut c = lzma_index_decoder(need - 1);
    let mut pos = 0usize;
    assert_eq!(index_decode(&mut c, &field, &mut pos), LZMA_MEMLIMIT_ERROR);
    assert_eq!(pos, 2);

    // A limit below the need is refused and the old one kept.
    let mut usage = 0u64;
    let mut old = 0u64;
    let mut c = lzma_index_decoder(need);
    let mut pos = 0usize;
    assert_eq!(index_decode(&mut c, &field[..2], &mut pos), LZMA_OK);
    assert_eq!(index_decoder_memconfig(&mut c, &mut usage, &mut old, 0), LZMA_OK);
    assert_eq!(usage, need);
    assert_eq!(old, need);
    assert_eq!(index_decoder_memconfig(&mut c, &mut usage, &mut old, need - 1), LZMA_MEMLIMIT_ERROR);
    assert_eq!(old, need);
    assert_eq!(index_decoder_memconfig(&mut c, &mut usage, &mut old, u64::MAX), LZMA_OK);
    let mut pos = 2usize;
    assert_eq!(index_decode(&mut c, &field, &mut pos), LZMA_STREAM_END);
}
