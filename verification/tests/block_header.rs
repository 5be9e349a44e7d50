use xz::block::lzma_block;
use xz::block_header::{lzma_block_header_decode, lzma_block_header_encode, lzma_block_header_size};
use xz::crc::crc32;
use xz::delta::{copy_and_encode, encode_in_place, lzma_delta_coder_init};
use xz::filter::{Filter, FilterOptions, LzmaRaw};
use xz::filter_flags::{lzma_filter_flags_decode, lzma_filter_flags_encode, lzma_filter_flags_size};
use xz::types::{
    LZMA_CHECK_CRC64, LZMA_DATA_ERROR, LZMA_FILTER_DELTA, LZMA_FILTER_LZMA2, LZMA_FILTER_X86,
    LZMA_OK, LZMA_OPTIONS_ERROR, LZMA_PROG_ERROR, LZMA_VLI_UNKNOWN,
};

const END: Filter = Filter { id: LZMA_VLI_UNKNOWN, options: FilterOptions::Absent };

fn lzma2(dict_size: u32) -> Filter {
    Filter {
        id: LZMA_FILTER_LZMA2,
        options: FilterOptions::Lzma(LzmaRaw {
            dict_size,
            lc: 3,
            lp: 0,
            pb: 2,
            mode: 2,
            nice_len: 64,
            mf: 0x14,
            depth: 0,
        }),
    }
}

#[test]
fn filter_flags_round_trip() {
    let f = lzma2(1 << 20);
    let mut size = 0u32;
    assert_eq!(lzma_filter_flags_size(&mut size, &f), LZMA_OK);
    assert_eq!(size, 3);
    let mut out = [0xaau8; 6];
    let mut pos = 1usize;
    assert_eq!(lzma_filter_flags_encode(&f, &mut out, &mut pos), LZMA_OK);
    assert_eq!(pos, 4);
    assert_eq!(out, [0xaa, 0x21, 0x01, 16, 0xaa, 0xaa]);
    let mut back = END;
    let mut in_pos = 1usize;
    assert_eq!(lzma_filter_flags_decode(&mut back, &out[..4], &mut in_pos), LZMA_OK);
    assert_eq!(in_pos, 4);
    assert_eq!(back.id, LZMA_FILTER_LZMA2);

    let mut small = [0u8; 2];
    let mut pos = 0usize;
    assert_eq!(lzma_filter_flags_encode(&f, &mut small, &mut pos), LZMA_PROG_ERROR);
    let unknown = Filter { id: 0x42, options: FilterOptions::Absent };
    let mut pos = 0usize;
    assert_eq!(lzma_filter_flags_encode(&unknown, &mut out, &mut pos), LZMA_OPTIONS_ERROR);
    assert_eq!(lzma_filter_flags_size(&mut size, &unknown), LZMA_OPTIONS_ERROR);
    let mut f2 = END;
    let mut in_pos = 0usize;
    // A properties size larger than what is left.
    assert_eq!(lzma_filter_flags_decode(&mut f2, &[0x21, 0x05, 0x10], &mut in_pos), LZMA_DATA_ERROR);
}

fn sample_block() -> lzma_block {
    let delta = Filter { id: LZMA_FILTER_DELTA, options: FilterOptions::Delta { dist: 4 } };
    lzma_block {
        version: 0,
        header_size: 0,
        check: LZMA_CHECK_CRC64,
        compressed_size: 1000,
        uncompressed_size: LZMA_VLI_UNKNOWN,
        filters: [delta, lzma2(8 << 20), END, END, END],
        ignore_check: false,
        raw_check: [0; 64],
    }
}

#[test]
fn block_header_round_trip() {
    let mut b = sample_block();
    assert_eq!(lzma_block_header_size(&mut b), LZMA_OK);
    // 2 + 2 (size 1000) + 3 (delta) + 3 (LZMA2) = 10, + 4 CRC = 14, rounded to 16.
    assert_eq!(b.header_size, 16);
    let mut out = [0u8; 20];
    assert_eq!(lzma_block_header_encode(&b, &mut out), LZMA_OK);
    assert_eq!(out[0], 3);
    assert_eq!(out[1], 0x40 | 1);
    assert_eq!(&out[12..16], &crc32(&out[..12], 0).to_le_bytes());
    assert_eq!(&out[16..], &[0, 0, 0, 0]);

    let mut d = lzma_block {
        version: 7,
        header_size: (out[0] as u32 + 1) * 4,
        check: LZMA_CHECK_CRC64,
        compressed_size: 0,
        uncompressed_size: 0,
        filters: [lzma2(1); 5],
        ignore_check: true,
        raw_check: [0; 64],
    };
    assert_eq!(lzma_block_header_decode(&mut d, &out), LZMA_OK);
    assert_eq!(d.version, 1);
    assert!(!d.ignore_check);
    assert_eq!(d.compressed_size, 1000);
    assert_eq!(d.uncompressed_size, LZMA_VLI_UNKNOWN);
    assert_eq!(d.filters[0], Filter { id: LZMA_FILTER_DELTA, options: FilterOptions::Delta { dist: 4 } });
    assert_eq!(d.filters[1].id, LZMA_FILTER_LZMA2);
    assert_eq!(d.filters[2], END);

    out[5] ^= 1;
    assert_eq!(lzma_block_header_decode(&mut d, &out), LZMA_DATA_ERROR);
    assert_eq!(d.filters[0], END);
}

#[test]
fn block_header_errors() {
    let mut b = sample_block();
    b.version = 2;
    assert_eq!(lzma_block_header_size(&mut b), LZMA_OPTIONS_ERROR);
    let mut b = sample_block();
    b.filters = [END; 5];
    assert_eq!(lzma_block_header_size(&mut b), LZMA_PROG_ERROR);
    let x86 = Filter { id: LZMA_FILTER_X86, options: FilterOptions::Absent };
    let mut b = sample_block();
    b.filters = [x86, x86, x86, x86, lzma2(1 << 20)];
    assert_eq!(lzma_block_header_size(&mut b), LZMA_PROG_ERROR);

    let mut b = sample_block();
    assert_eq!(lzma_block_header_size(&mut b), LZMA_OK);
    let mut short = [0u8; 8];
    assert_eq!(lzma_block_header_encode(&b, &mut short), LZMA_PROG_ERROR);
    assert_eq!(short, [0u8; 8]);

    let mut d = sample_block();
    d.header_size = 8;
    assert_eq!(lzma_block_header_decode(&mut d, &[]), LZMA_PROG_ERROR);
    let mut hdr = [1u8, 0x04, 0, 0, 0, 0, 0, 0];
    let c = crc32(&hdr[..4], 0).to_le_bytes();
    hdr[4..].copy_from_slice(&c);
    assert_eq!(lzma_block_header_decode(&mut d, &hdr), LZMA_OPTIONS_ERROR);
}

#[test]
fn delta_encoding() {
    let mut coder = lzma_delta_coder_init(1);
    let mut out = [0u8; 4];
    copy_and_encode(&mut coder, &[1, 2, 4, 7], &mut out);
    assert_eq!(out, [1, 1, 2, 3]);
    let mut buf = [7u8, 0];
    encode_in_place(&mut coder, &mut buf);
    assert_eq!(buf, [0, 249]);

    let mut c2 = lzma_delta_coder_init(2);
    let mut out2 = [0u8; 5];
    copy_and_encode(&mut c2, &[10, 20, 15, 25, 15], &mut out2);
    assert_eq!(out2, [10, 20, 5, 5, 0]);
}

#[test]
fn properties_come_back_canonical() {
    use_props_round_trip();
}

fn use_props_round_trip() {
    // An LZMA2 dictionary size comes back rounded up to one the properties
    // byte can express; the other options come back as zero.
    let f = lzma2(1_000_000);
    let mut out = [0u8; 8];
    let mut pos = 0usize;
    assert_eq!(lzma_filter_flags_encode(&f, &mut out, &mut pos), LZMA_OK);
    let mut back = END;
    let mut in_pos = 0usize;
    assert_eq!(lzma_filter_flags_decode(&mut back, &out[..pos], &mut in_pos), LZMA_OK);
    assert_eq!(in_pos, pos);
    assert_eq!(
        back,
        Filter {
            id: LZMA_FILTER_LZMA2,
            options: FilterOptions::Lzma(LzmaRaw {
                dict_size: 1 << 20,
                lc: 0,
                lp: 0,
                pb: 0,
                mode: 0,
                nice_len: 0,
                mf: 0,
                depth: 0
            }),
        }
    );
    // A branch converter with start offset 0 comes back without options.
    let x86 = Filter { id: LZMA_FILTER_X86, options: FilterOptions::Bcj { start_offset: 0 } };
    let mut pos = 0usize;
    assert_eq!(lzma_filter_flags_encode(&x86, &mut out, &mut pos), LZMA_OK);
    let mut back = END;
    let mut in_pos = 0usize;
    assert_eq!(lzma_filter_flags_decode(&mut back, &out[..pos], &mut in_pos), LZMA_OK);
    assert_eq!(back, Filter { id: LZMA_FILTER_X86, options: FilterOptions::Absent });
}
