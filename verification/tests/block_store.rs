use xz::block::lzma_block;
use xz::block_buffer_encoder::lzma_block_uncomp_encode;
use xz::block_header::lzma_block_header_decode;
use xz::crc::{crc32, crc64};
use xz::filter::{Filter, FilterOptions, LzmaRaw};
use xz::types::{
    LZMA_BUF_ERROR, LZMA_CHECK_CRC32, LZMA_CHECK_CRC64, LZMA_CHECK_NONE, LZMA_FILTER_LZMA2,
    LZMA_OK, LZMA_OPTIONS_ERROR, LZMA_PROG_ERROR, LZMA_UNSUPPORTED_CHECK, LZMA_VLI_UNKNOWN,
};

const END: Filter = Filter { id: LZMA_VLI_UNKNOWN, options: FilterOptions::Absent };

fn block(check: u32) -> lzma_block {
    lzma_block {
        version: 0,
        header_size: 0,
        check,
        compressed_size: LZMA_VLI_UNKNOWN,
        uncompressed_size: LZMA_VLI_UNKNOWN,
        filters: [END; 5],
        ignore_check: false,
        raw_check: [0xaa; 64],
    }
}

#[test]
fn stored_block_layout() {
    let mut b = block(LZMA_CHECK_CRC32);
    let mut out = [0x55u8; 40];
    let mut pos = 2usize;
    assert_eq!(lzma_block_uncomp_encode(&mut b, b"hello", &mut out, &mut pos), LZMA_OK);
    // Header 12, LZMA2 data 3 + 5 + 1, padding 3, CRC32 4.
    assert_eq!(pos, 2 + 12 + 9 + 3 + 4);
    assert_eq!(b.header_size, 12);
    assert_eq!(b.compressed_size, 9);
    assert_eq!(b.uncompressed_size, 5);
    assert_eq!(&out[..2], &[0x55, 0x55]);
    let h = &out[2..14];
    assert_eq!(&h[..8], &[2, 0xc0, 9, 5, 0x21, 1, 0, 0]);
    assert_eq!(&h[8..], &crc32(&h[..8], 0).to_le_bytes());
    assert_eq!(&out[14..23], &[1, 0, 4, b'h', b'e', b'l', b'l', b'o', 0]);
    assert_eq!(&out[23..26], &[0, 0, 0]);
    let c = crc32(b"hello", 0).to_le_bytes();
    assert_eq!(&out[26..30], &c);
    assert_eq!(&b.raw_check[..4], &c);
    assert_eq!(b.raw_check[4], 0xaa);
    assert_eq!(&out[30..], &[0x55; 10]);

    // The header reads back with the stored chain.
    let mut d = block(LZMA_CHECK_CRC32);
    d.header_size = 12;
    assert_eq!(lzma_block_header_decode(&mut d, &out[2..]), LZMA_OK);
    assert_eq!(d.compressed_size, 9);
    assert_eq!(d.uncompressed_size, 5);
    assert_eq!(
        d.filters[0],
        Filter {
            id: LZMA_FILTER_LZMA2,
            options: FilterOptions::Lzma(LzmaRaw {
                dict_size: 4096,
                lc: 0,
                lp: 0,
                pb: 0,
                mode: 0,
                nice_len: 0,
                mf: 0,
                depth: 0,
            }),
        }
    );
    assert_eq!(d.filters[1].id, LZMA_VLI_UNKNOWN);
}

#[test]
fn stored_block_splits_chunks() {
    let data: Vec<u8> = (0..70000u32).map(|i| (i % 251) as u8).collect();
    let mut b = block(LZMA_CHECK_CRC64);
    let mut out = vec![0u8; 70200];
    let mut pos = 0usize;
    assert_eq!(lzma_block_uncomp_encode(&mut b, &data, &mut out, &mut pos), LZMA_OK);
    let hs = b.header_size as usize;
    // Two chunks: 65536 bytes then 4464 bytes, then the end marker.
    assert_eq!(b.compressed_size, 3 + 65536 + 3 + 4464 + 1);
    assert_eq!(&out[hs..hs + 3], &[1, 0xff, 0xff]);
    assert_eq!(&out[hs + 3..hs + 3 + 65536], &data[..65536]);
    let second = hs + 3 + 65536;
    assert_eq!(&out[second..second + 3], &[2, 0x11, 0x6f]);
    assert_eq!(&out[second + 3..second + 3 + 4464], &data[65536..]);
    assert_eq!(out[second + 3 + 4464], 0);
    let padded = hs + ((b.compressed_size as usize + 3) & !3);
    assert_eq!(&out[padded..padded + 8], &crc64(&data, 0).to_le_bytes());
    assert_eq!(pos, padded + 8);
}

#[test]
fn stored_empty_block() {
    let mut b = block(LZMA_CHECK_NONE);
    let mut out = [9u8; 16];
    let mut pos = 0usize;
    assert_eq!(lzma_block_uncomp_encode(&mut b, &[], &mut out, &mut pos), LZMA_OK);
    assert_eq!(b.compressed_size, 1);
    assert_eq!(b.uncompressed_size, 0);
    assert_eq!(b.header_size, 12);
    assert_eq!(&out[12..16], &[0, 0, 0, 0]);
    assert_eq!(pos, 16);
    assert_eq!(b.raw_check, [0xaa; 64]);
}

#[test]
fn stored_block_errors() {
    let mut out = [7u8; 64];

    let mut b = block(LZMA_CHECK_CRC32);
    let mut pos = 65usize;
    assert_eq!(lzma_block_uncomp_encode(&mut b, b"x", &mut out, &mut pos), LZMA_PROG_ERROR);
    assert_eq!(pos, 65);

    let mut b = block(LZMA_CHECK_CRC32);
    b.version = 2;
    let mut pos = 0usize;
    assert_eq!(lzma_block_uncomp_encode(&mut b, b"x", &mut out, &mut pos), LZMA_OPTIONS_ERROR);

    let mut b = block(16);
    assert_eq!(lzma_block_uncomp_encode(&mut b, b"x", &mut out, &mut pos), LZMA_PROG_ERROR);

    let mut b = block(2);
    assert_eq!(lzma_block_uncomp_encode(&mut b, b"x", &mut out, &mut pos), LZMA_UNSUPPORTED_CHECK);
    assert_eq!(b.compressed_size, LZMA_VLI_UNKNOWN);

    // Room for the check but not for the header and data.
    let mut b = block(LZMA_CHECK_CRC32);
    let mut small = [0u8; 20];
    let mut pos = 0usize;
    assert_eq!(lzma_block_uncomp_encode(&mut b, b"hello", &mut small, &mut pos), LZMA_BUF_ERROR);
    assert_eq!(pos, 0);
    assert_eq!(small, [0u8; 20]);
    assert_eq!(b.header_size, 12);
    assert_eq!(b.compressed_size, 9);

    // No room even for the check.
    let mut b = block(LZMA_CHECK_CRC32);
    let mut tiny = [0u8; 7];
    assert_eq!(lzma_block_uncomp_encode(&mut b, b"hello", &mut tiny, &mut pos), LZMA_BUF_ERROR);
    assert_eq!(b.compressed_size, LZMA_VLI_UNKNOWN);
}
