use xz::stream_decoder::{
    lzma_stream_decoder_init, stream_decode_step, stream_decoder_block_memusage, stream_decoder_memconfig,
    StreamDecoder, StreamStep,
};
use xz::types::{
    LZMA_CHECK_CRC64, LZMA_CHECK_NONE, LZMA_CONCATENATED, LZMA_DATA_ERROR, LZMA_FORMAT_ERROR,
    LZMA_GET_CHECK, LZMA_MEMLIMIT_ERROR, LZMA_NO_CHECK, LZMA_OK, LZMA_OPTIONS_ERROR, LZMA_STREAM_END,
    LZMA_TELL_ANY_CHECK, LZMA_TELL_NO_CHECK,
};
use xz::xz_stored::xz_stored_encode;

/// Start of the Index of a single Stream `s` that ends the input.
fn index_start(s: &[u8]) -> usize {
    let n = s.len();
    let backward = (u32::from_le_bytes([s[n - 8], s[n - 7], s[n - 6], s[n - 5]]) as usize + 1) * 4;
    n - 12 - backward
}

/// Runs the decoder over `input`, standing in for a Block coder: a Block is
/// skipped up to `block_ends[k]`, with the sizes its Index gives.
fn run(c: &mut StreamDecoder, input: &[u8], block_ends: &[(usize, u64, u64)], finish: bool) -> (u32, usize) {
    let mut pos = 0usize;
    let mut next = 0usize;
    let mut ended = None;
    loop {
        match stream_decode_step(c, input, &mut pos, ended.take(), finish) {
            StreamStep::Continue => {}
            StreamStep::Done(code) => return (code, pos),
            StreamStep::RunBlock => {
                let (end, unpadded, uncompressed) = block_ends[next];
                next += 1;
                pos = end;
                ended = Some((unpadded, uncompressed));
            }
        }
    }
}

fn hello_stream(check: u32) -> (Vec<u8>, (usize, u64, u64)) {
    let s = xz_stored_encode(b"hello", check).ok().unwrap();
    let i = index_start(&s);
    // Index Indicator, one Record, then the two sizes (each one byte here).
    assert_eq!(s[i], 0);
    assert_eq!(s[i + 1], 1);
    (s.clone(), (i, s[i + 2] as u64, s[i + 3] as u64))
}

#[test]
fn stream_decoder_empty_stream() {
    let s = xz_stored_encode(b"", LZMA_CHECK_CRC64).ok().unwrap();
    let mut c = lzma_stream_decoder_init(u64::MAX, 0).ok().unwrap();
    assert_eq!(run(&mut c, &s, &[], true), (LZMA_STREAM_END, s.len()));
    assert_eq!(c.get_check(), LZMA_CHECK_CRC64);
}

#[test]
fn stream_decoder_one_block() {
    let (s, b) = hello_stream(LZMA_CHECK_CRC64);
    assert_eq!(b.2, 5);
    let mut c = lzma_stream_decoder_init(u64::MAX, 0).ok().unwrap();
    assert_eq!(run(&mut c, &s, &[b], true), (LZMA_STREAM_END, s.len()));
}

#[test]
fn stream_decoder_wrong_block_size() {
    let (s, b) = hello_stream(LZMA_CHECK_CRC64);
    let mut c = lzma_stream_decoder_init(u64::MAX, 0).ok().unwrap();
    // The Index records five bytes; a Block that claims six disagrees.
    assert_eq!(run(&mut c, &s, &[(b.0, b.1, 6)], true).0, LZMA_DATA_ERROR);
}

#[test]
fn stream_decoder_block_header_read() {
    let (s, _) = hello_stream(LZMA_CHECK_CRC64);
    let mut c = lzma_stream_decoder_init(u64::MAX, 0).ok().unwrap();
    let mut pos = 0usize;
    assert_eq!(stream_decode_step(&mut c, &s, &mut pos, None, true), StreamStep::Continue);
    assert_eq!(pos, 12);
    assert_eq!(stream_decode_step(&mut c, &s, &mut pos, None, true), StreamStep::Continue);
    let hs = (s[12] as usize + 1) * 4;
    assert_eq!(pos, 12 + hs);
    assert_eq!(stream_decode_step(&mut c, &s, &mut pos, None, true), StreamStep::RunBlock);
    assert_eq!(c.block_header(), &s[12..12 + hs]);
    assert_eq!(c.block().header_size as usize, hs);
    assert_eq!(c.block().check, LZMA_CHECK_CRC64);
    // Until the Block has ended the decoder keeps asking for it.
    assert_eq!(stream_decode_step(&mut c, &s, &mut pos, None, true), StreamStep::RunBlock);
}

#[test]
fn stream_decoder_input_in_pieces() {
    let s = xz_stored_encode(b"", LZMA_CHECK_CRC64).ok().unwrap();
    let mut c = lzma_stream_decoder_init(u64::MAX, 0).ok().unwrap();
    let mut pos = 0usize;
    // Five bytes of the Stream Header are not enough.
    assert_eq!(stream_decode_step(&mut c, &s[..5], &mut pos, None, false), StreamStep::Done(LZMA_OK));
    assert_eq!(pos, 5);
    assert_eq!(run(&mut c, &s[5..], &[], true), (LZMA_STREAM_END, s.len() - 5));
}

#[test]
fn stream_decoder_bad_magic() {
    let mut s = xz_stored_encode(b"", LZMA_CHECK_CRC64).ok().unwrap();
    s[0] = 0;
    let mut c = lzma_stream_decoder_init(u64::MAX, 0).ok().unwrap();
    assert_eq!(run(&mut c, &s, &[], true).0, LZMA_FORMAT_ERROR);
}

#[test]
fn stream_decoder_concatenated() {
    let one = xz_stored_encode(b"", LZMA_CHECK_CRC64).ok().unwrap();
    let mut s = one.clone();
    s.extend_from_slice(&[0, 0, 0, 0]);
    s.extend_from_slice(&one);
    let mut c = lzma_stream_decoder_init(u64::MAX, LZMA_CONCATENATED).ok().unwrap();
    assert_eq!(run(&mut c, &s, &[], true), (LZMA_STREAM_END, s.len()));
    // Without the flag the decoder stops after the first Stream.
    let mut c = lzma_stream_decoder_init(u64::MAX, 0).ok().unwrap();
    assert_eq!(run(&mut c, &s, &[], true), (LZMA_STREAM_END, one.len()));
}

#[test]
fn stream_decoder_padding_not_multiple_of_four() {
    let one = xz_stored_encode(b"", LZMA_CHECK_CRC64).ok().unwrap();
    let mut s = one.clone();
    s.extend_from_slice(&[0, 0, 0]);
    s.extend_from_slice(&one);
    let mut c = lzma_stream_decoder_init(u64::MAX, LZMA_CONCATENATED).ok().unwrap();
    assert_eq!(run(&mut c, &s, &[], true).0, LZMA_DATA_ERROR);
    // Three padding bytes at the very end are an error too.
    let mut t = one.clone();
    t.extend_from_slice(&[0, 0, 0]);
    let mut c = lzma_stream_decoder_init(u64::MAX, LZMA_CONCATENATED).ok().unwrap();
    assert_eq!(run(&mut c, &t, &[], true), (LZMA_DATA_ERROR, t.len()));
}

#[test]
fn stream_decoder_garbage_after_first_stream() {
    let one = xz_stored_encode(b"", LZMA_CHECK_CRC64).ok().unwrap();
    let mut s = one.clone();
    s.extend_from_slice(&[1u8; 12]);
    let mut c = lzma_stream_decoder_init(u64::MAX, LZMA_CONCATENATED).ok().unwrap();
    // Not the magic bytes of a second Stream: corrupt data, not a format error.
    assert_eq!(run(&mut c, &s, &[], true).0, LZMA_DATA_ERROR);
}

#[test]
fn stream_decoder_tell_flags() {
    let s = xz_stored_encode(b"", LZMA_CHECK_NONE).ok().unwrap();
    let mut c = lzma_stream_decoder_init(u64::MAX, LZMA_TELL_NO_CHECK).ok().unwrap();
    assert_eq!(run(&mut c, &s, &[], true), (LZMA_NO_CHECK, 12));
    let t = xz_stored_encode(b"", LZMA_CHECK_CRC64).ok().unwrap();
    let mut c = lzma_stream_decoder_init(u64::MAX, LZMA_TELL_ANY_CHECK).ok().unwrap();
    assert_eq!(run(&mut c, &t, &[], true), (LZMA_GET_CHECK, 12));
}

#[test]
fn stream_decoder_unknown_flag() {
    assert_eq!(lzma_stream_decoder_init(u64::MAX, 0x40).err(), Some(LZMA_OPTIONS_ERROR));
}

#[test]
fn stream_decoder_corrupt_footer() {
    let mut s = xz_stored_encode(b"", LZMA_CHECK_CRC64).ok().unwrap();
    let n = s.len();
    s[n - 1] = 0;
    let mut c = lzma_stream_decoder_init(u64::MAX, 0).ok().unwrap();
    assert_eq!(run(&mut c, &s, &[], true).0, LZMA_DATA_ERROR);
}

#[test]
fn stream_decoder_memory_limit() {
    let mut c = lzma_stream_decoder_init(0, 0).ok().unwrap();
    // A limit of 0 is taken as 1; the need starts at the base.
    assert_eq!(stream_decoder_memconfig(&mut c, 0), (0x8000, 1, LZMA_OK));
    assert_eq!(stream_decoder_block_memusage(&mut c, u64::MAX), LZMA_OPTIONS_ERROR);
    assert_eq!(stream_decoder_block_memusage(&mut c, 1 << 20), LZMA_MEMLIMIT_ERROR);
    assert_eq!(stream_decoder_memconfig(&mut c, 1000), (1 << 20, 1, LZMA_MEMLIMIT_ERROR));
    assert_eq!(stream_decoder_memconfig(&mut c, 1 << 21), (1 << 20, 1, LZMA_OK));
    assert_eq!(stream_decoder_block_memusage(&mut c, 1 << 20), LZMA_OK);
    assert_eq!(stream_decoder_memconfig(&mut c, 0), (1 << 20, 1 << 21, LZMA_OK));
}
