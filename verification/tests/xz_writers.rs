use std::iter::repeat;
use xz::crc::crc64;
use xz::stream::{Error, PRESET_EXTREME};
use xz::stream_decoder_mt::stream_decoder_mt_settings;
use xz::write::{XzDecoder, XzEncoder};
use xz::xz_stored::{xz_stored_decode, xz_stored_encode};
use xz::index_encoder::index_encode;
use xz::index_hash::{
    lzma_index_hash_append, lzma_index_hash_decode, lzma_index_hash_init, lzma_index_hash_size,
};
use xz::types::{LZMA_OK, LZMA_STREAM_END, LZMA_CHECK_CRC64, LZMA_CHECK_NONE, LZMA_DATA_ERROR, LZMA_FORMAT_ERROR, LZMA_OPTIONS_ERROR};

#[test]
fn smoke() {
    let d = XzDecoder::new(Vec::new());
    let mut c = XzEncoder::new(d, 6);
    c.write_all(b"12834").unwrap();
    let s = repeat("12345").take(100000).collect::<String>();
    c.write_all(s.as_bytes()).unwrap();
    let data = c.finish().unwrap().finish().unwrap();
    assert_eq!(&data[0..5], b"12834");
    assert_eq!(data.len(), 500005);
    assert_eq!(format!("12834{}", s).as_bytes(), data.as_slice());
}

#[test]
fn write_empty() {
    let d = XzDecoder::new(Vec::new());
    let mut c = XzEncoder::new(d, 6);
    c.write(b"").unwrap();
    let data = c.finish().unwrap().finish().unwrap();
    assert_eq!(&data[..], b"");
}

#[test]
fn extreme_preset_round_trip() {
    let d = XzDecoder::new(Vec::new());
    let mut c = XzEncoder::new(d, 6 | PRESET_EXTREME);
    let input = vec![11u8; 128 * 1024 + 1];
    c.write_all(&input).unwrap();
    let data = c.finish().unwrap().finish().unwrap();
    assert_eq!(data, input);
}

#[test]
fn stored_stream_layout() {
    let s = xz_stored_encode(b"hello", LZMA_CHECK_CRC64).ok().unwrap();
    assert_eq!(&s[..6], &[0xfd, 0x37, 0x7a, 0x58, 0x5a, 0x00]);
    assert_eq!(&s[6..8], &[0, LZMA_CHECK_CRC64 as u8]);
    // Block: 12-byte header, LZMA2 chunk 1 + 2 + 5, end marker, 3 padding, CRC64.
    let block = &s[12..12 + 12 + 9 + 3 + 8];
    assert_eq!(&block[12..21], &[1, 0, 4, b'h', b'e', b'l', b'l', b'o', 0]);
    assert_eq!(&block[21..24], &[0, 0, 0]);
    assert_eq!(&block[24..], &crc64(b"hello", 0).to_le_bytes());
    // Index: indicator, one record (Unpadded Size 29, size 5), padding, CRC32.
    let index = &s[44..s.len() - 12];
    assert_eq!(&index[..4], &[0, 1, 29, 5]);
    assert_eq!(index.len(), 8);
    assert_eq!(&s[s.len() - 2..], b"YZ");
    assert_eq!(xz_stored_decode(&s).ok().unwrap(), b"hello".to_vec());
}

#[test]
fn empty_stream_has_no_block() {
    let s = xz_stored_encode(b"", LZMA_CHECK_NONE).ok().unwrap();
    // Header, an Index of no Records (8 bytes), footer.
    assert_eq!(s.len(), 12 + 8 + 12);
    assert_eq!(&s[12..14], &[0, 0]);
    assert_eq!(xz_stored_decode(&s).ok().unwrap(), Vec::<u8>::new());
}

#[test]
fn concatenated_streams_with_padding() {
    let mut s = xz_stored_encode(b"ab", LZMA_CHECK_CRC64).ok().unwrap();
    s.extend_from_slice(&[0, 0, 0, 0]);
    s.extend_from_slice(&xz_stored_encode(b"cd", LZMA_CHECK_NONE).ok().unwrap());
    assert_eq!(xz_stored_decode(&s).ok().unwrap(), b"abcd".to_vec());
    s.push(0);
    assert_eq!(xz_stored_decode(&s).err(), Some(LZMA_DATA_ERROR));
}

#[test]
fn decoder_errors() {
    assert_eq!(xz_stored_decode(b"short").err(), Some(LZMA_DATA_ERROR));
    assert_eq!(xz_stored_decode(&[0u8; 32]).err(), Some(LZMA_FORMAT_ERROR));
    let mut s = xz_stored_encode(b"hello", LZMA_CHECK_CRC64).ok().unwrap();
    // A damaged CRC64 of the data.
    s[12 + 24] ^= 1;
    assert_eq!(xz_stored_decode(&s).err(), Some(LZMA_DATA_ERROR));
    // A compressed LZMA2 chunk cannot be read here.
    let mut s = xz_stored_encode(b"hello", LZMA_CHECK_CRC64).ok().unwrap();
    s[24] = 0x80;
    assert_eq!(xz_stored_decode(&s).err(), Some(LZMA_OPTIONS_ERROR));
    // Truncated.
    let s = xz_stored_encode(b"hello", LZMA_CHECK_CRC64).ok().unwrap();
    assert_eq!(xz_stored_decode(&s[..s.len() - 1]).err(), Some(LZMA_DATA_ERROR));
}

#[test]
fn decoder_maps_errors() {
    let mut d = XzDecoder::new(Vec::new());
    d.write_all(b"not an xz stream!").unwrap();
    assert_eq!(d.finish().err(), Some(Error::Format));
}

#[test]
fn index_hash_accepts_encoded_index() {
    let pairs = [(29u64, 5u64), (1000, 5000), (200000, 1 << 40)];
    let mut h = lzma_index_hash_init();
    for (u, c) in pairs.iter() {
        assert_eq!(lzma_index_hash_append(&mut h, *u, *c), LZMA_OK);
    }
    let idx = index_encode(&pairs);
    assert_eq!(lzma_index_hash_size(&h), idx.len() as u64);
    let mut pos = 0usize;
    assert_eq!(lzma_index_hash_decode(&mut h, &idx, &mut pos), LZMA_STREAM_END);
    assert_eq!(pos, idx.len());
}

#[test]
fn mt_decoder_settings() {
    let s = stream_decoder_mt_settings(4, 0x08 | 0x10, 300, 0, 1000).ok().unwrap();
    assert_eq!(s.threads, 4);
    assert_eq!(s.memlimit_threading, 1);
    assert_eq!(s.memlimit_stop, 1000);
    assert!(s.concatenated && s.ignore_check && !s.fail_fast && !s.tell_any_check);
    let s = stream_decoder_mt_settings(1, 0, 0, 5000, 1000).ok().unwrap();
    assert_eq!(s.memlimit_threading, 1000);
    assert_eq!(stream_decoder_mt_settings(0, 0, 0, 1, 1).err(), Some(LZMA_OPTIONS_ERROR));
    assert_eq!(stream_decoder_mt_settings(16385, 0, 0, 1, 1).err(), Some(LZMA_OPTIONS_ERROR));
    assert_eq!(stream_decoder_mt_settings(2, 0x40, 0, 1, 1).err(), Some(LZMA_OPTIONS_ERROR));
}
