use xz::block::lzma_block;
use xz::block_buffer_encoder::lzma_block_uncomp_encode;
use xz::check::lzma_check_size;
use xz::crc::crc32;
use xz::file_info::{file_info_decode, file_info_decoder_memconfig, lzma_file_info_decoder};
use xz::filter::{Filter, FilterOptions};
use xz::index::{
    lzma_index_block_count, lzma_index_file_size, lzma_index_memusage, lzma_index_s,
    lzma_index_stream_count, lzma_index_uncompressed_size,
};
use xz::stream_flags::{lzma_stream_footer_encode, lzma_stream_header_encode, StreamFlags};
use xz::types::{
    LZMA_CHECK_CRC32, LZMA_CHECK_CRC64, LZMA_DATA_ERROR, LZMA_FORMAT_ERROR, LZMA_OK,
    LZMA_SEEK_NEEDED, LZMA_STREAM_END, LZMA_VLI_UNKNOWN,
};
use xz::vli::lzma_vli_encode;

const END: Filter = Filter { id: LZMA_VLI_UNKNOWN, options: FilterOptions::Absent };

/// A Stream with one stored Block per piece of `blocks`.
fn stream(blocks: &[&[u8]], check: u32) -> Vec<u8> {
    let flags = StreamFlags { version: 0, backward_size: LZMA_VLI_UNKNOWN, check };
    let mut h = [0u8; 12];
    assert_eq!(lzma_stream_header_encode(&flags, &mut h), LZMA_OK);
    let mut out = h.to_vec();
    let mut records = Vec::new();
    for data in blocks {
        let mut b = lzma_block {
            version: 0,
            header_size: 0,
            check,
            compressed_size: LZMA_VLI_UNKNOWN,
            uncompressed_size: LZMA_VLI_UNKNOWN,
            filters: [END; 5],
            ignore_check: false,
            raw_check: [0; 64],
        };
        let mut buf = vec![0u8; data.len() + 200];
        let mut pos = 0usize;
        assert_eq!(lzma_block_uncomp_encode(&mut b, data, &mut buf, &mut pos), LZMA_OK);
        out.extend_from_slice(&buf[..pos]);
        let unpadded = b.header_size as u64 + b.compressed_size + lzma_check_size(check) as u64;
        records.push((unpadded, data.len() as u64));
    }
    let mut index = vec![0u8; 1024];
    let mut ip = 1usize;
    assert_eq!(lzma_vli_encode(records.len() as u64, None, &mut index, &mut ip), LZMA_OK);
    for &(u, c) in &records {
        assert_eq!(lzma_vli_encode(u, None, &mut index, &mut ip), LZMA_OK);
        assert_eq!(lzma_vli_encode(c, None, &mut index, &mut ip), LZMA_OK);
    }
    while ip % 4 != 0 {
        ip += 1;
    }
    let crc = crc32(&index[..ip], 0);
    index[ip..ip + 4].copy_from_slice(&crc.to_le_bytes());
    ip += 4;
    out.extend_from_slice(&index[..ip]);
    let flags = StreamFlags { version: 0, backward_size: ip as u64, check };
    let mut f = [0u8; 12];
    assert_eq!(lzma_stream_footer_encode(&flags, &mut f), LZMA_OK);
    out.extend_from_slice(&f);
    out
}

/// Runs the decoder over `file`, giving it at most `chunk` bytes a call and
/// seeking where it asks.
fn run(file: &[u8], chunk: usize) -> Result<lzma_index_s, u32> {
    run_limited(file, chunk, u64::MAX)
}

fn run_limited(file: &[u8], chunk: usize, memlimit: u64) -> Result<lzma_index_s, u32> {
    let mut c = lzma_file_info_decoder(memlimit, file.len() as u64);
    let mut at = 0usize;
    for _ in 0..100000 {
        let end = std::cmp::min(at + chunk, file.len());
        let mut in_pos = 0usize;
        let ret = file_info_decode(&mut c, &file[at..end], &mut in_pos);
        if ret == LZMA_OK {
            at += in_pos;
        } else if ret == LZMA_SEEK_NEEDED {
            at = c.seek_pos() as usize;
        } else if ret == LZMA_STREAM_END {
            return Ok(c.take_index().unwrap());
        } else {
            return Err(ret);
        }
    }
    panic!("no progress");
}

fn two_streams() -> (Vec<u8>, u64) {
    let mut file = stream(&[b"hello", b"", b"world!"], LZMA_CHECK_CRC32);
    file.extend_from_slice(&[0, 0, 0, 0, 0, 0, 0, 0]);
    let big: Vec<u8> = (0..20000u32).map(|i| (i % 7) as u8).collect();
    file.extend_from_slice(&stream(&[&big], LZMA_CHECK_CRC64));
    (file, 5 + 6 + 20000)
}

#[test]
fn file_info_reads_every_stream() {
    let (file, total) = two_streams();
    for chunk in [1usize, 5, 7, 64, 4096, 100000] {
        let i = run(&file, chunk).unwrap();
        assert_eq!(lzma_index_stream_count(&i), 2);
        assert_eq!(lzma_index_block_count(&i), 4);
        assert_eq!(lzma_index_uncompressed_size(&i), total);
        assert_eq!(lzma_index_file_size(&i), file.len() as u64);
    }
}

#[test]
fn file_info_single_stream_with_no_blocks() {
    let file = stream(&[], LZMA_CHECK_CRC32);
    assert_eq!(file.len(), 32);
    let i = run(&file, 1000).unwrap();
    assert_eq!(lzma_index_stream_count(&i), 1);
    assert_eq!(lzma_index_block_count(&i), 0);
    assert_eq!(lzma_index_file_size(&i), 32);
}

#[test]
fn file_info_errors() {
    // Too short for a Stream Header.
    assert_eq!(run(&[0u8; 8], 100).err(), Some(LZMA_FORMAT_ERROR));
    // Not a .xz file.
    assert_eq!(run(&[1u8; 64], 100).err(), Some(LZMA_FORMAT_ERROR));
    let (file, _) = two_streams();
    // A size that is not a multiple of four.
    let mut odd = file.clone();
    odd.push(0);
    assert_eq!(run(&odd, 100).err(), Some(LZMA_DATA_ERROR));
    // A corrupt Stream Footer.
    let mut bad = file.clone();
    let l = bad.len();
    bad[l - 5] ^= 0x10;
    assert_eq!(run(&bad, 100).err(), Some(LZMA_DATA_ERROR));
    // Stream Padding that is not a multiple of four bytes.
    let mut pad = stream(&[b"x"], LZMA_CHECK_CRC32);
    pad.extend_from_slice(&[0, 0]);
    pad.extend_from_slice(&[0, 0]);
    let mut s2 = stream(&[b"y"], LZMA_CHECK_CRC32);
    let mut odd_pad = stream(&[b"x"], LZMA_CHECK_CRC32);
    odd_pad.extend_from_slice(&[0, 0]);
    odd_pad.append(&mut s2);
    odd_pad.extend_from_slice(&[0, 0]);
    assert_eq!(run(&odd_pad, 100).err(), Some(LZMA_DATA_ERROR));
    assert!(run(&pad, 100).is_ok());
}

#[test]
fn file_info_memory_limit() {
    let (file, _) = two_streams();
    let mut c = lzma_file_info_decoder(0, file.len() as u64);
    let mut usage = 0u64;
    let mut old = 0u64;
    assert_eq!(file_info_decoder_memconfig(&mut c, &mut usage, &mut old, 0), LZMA_OK);
    assert_eq!(usage, lzma_index_memusage(1, 0));
    assert_eq!(old, 1);
    let more = usage + 1;
    assert_eq!(file_info_decoder_memconfig(&mut c, &mut usage, &mut old, more), LZMA_OK);
    assert_eq!(file_info_decoder_memconfig(&mut c, &mut usage, &mut old, 0), LZMA_OK);
    assert_eq!(old, lzma_index_memusage(1, 0) + 1);
    // Too little memory for the Index of the last Stream.
    assert_eq!(run_limited(&file, 100000, 1).err(), Some(xz::types::LZMA_MEMLIMIT_ERROR));
    assert!(run_limited(&file, 100000, 1 << 20).is_ok());
}

#[test]
fn partial_header_needs_more_input() {
    let mut c = lzma_file_info_decoder(u64::MAX, 1000);
    let mut pos = 0usize;
    // Five bytes of the Stream Header: all taken, more input needed.
    assert_eq!(file_info_decode(&mut c, &[0xfd, 0x37, 0x7a, 0x58, 0x5a], &mut pos), LZMA_OK);
    assert_eq!(pos, 5);
    // A file size that is not a multiple of four, once the header is read.
    let flags = StreamFlags { version: 0, backward_size: LZMA_VLI_UNKNOWN, check: LZMA_CHECK_CRC32 };
    let mut header = [0u8; 12];
    assert_eq!(lzma_stream_header_encode(&flags, &mut header), LZMA_OK);
    let mut c = lzma_file_info_decoder(u64::MAX, 1001);
    let mut pos = 0usize;
    assert_eq!(file_info_decode(&mut c, &header, &mut pos), LZMA_DATA_ERROR);
}
