use xz::crc::crc32;
use xz::filter::{
    filter_features_of, lzma_filter_decoder_is_supported, lzma_filter_encoder_is_supported,
    lzma_properties_decode, lzma_properties_encode, lzma_properties_size, lzma_validate_chain,
    Filter, FilterOptions, LzmaRaw,
};
use xz::index_hash::{
    lzma_index_hash_append, lzma_index_hash_decode, lzma_index_hash_init, lzma_index_hash_size,
};
use xz::preset::{
    lzma_easy_preset, lzma_lzma_preset, lzma_mt_block_size, lzma_version_number,
    lzma_version_string, OptionsEasy,
};
use xz::stream_flags::{
    lzma_stream_flags_compare, lzma_stream_footer_decode, lzma_stream_footer_encode,
    lzma_stream_header_decode, lzma_stream_header_encode, StreamFlags,
};
use xz::types::{
    LZMA_BUF_ERROR, LZMA_CHECK_CRC64, LZMA_DATA_ERROR, LZMA_FILTER_ARM, LZMA_FILTER_DELTA,
    LZMA_FILTER_LZMA1, LZMA_FILTER_LZMA2, LZMA_FILTER_X86, LZMA_FORMAT_ERROR, LZMA_OK,
    LZMA_OPTIONS_ERROR, LZMA_PROG_ERROR, LZMA_STREAM_END, LZMA_VLI_MAX, LZMA_VLI_UNKNOWN,
};
use xz::vli::{lzma_vli_decode, lzma_vli_encode, lzma_vli_size};

#[test]
fn vli_sizes_and_round_trip() {
    assert_eq!(lzma_vli_size(0), 1);
    assert_eq!(lzma_vli_size(127), 1);
    assert_eq!(lzma_vli_size(128), 2);
    assert_eq!(lzma_vli_size(LZMA_VLI_MAX), 9);
    assert_eq!(lzma_vli_size(LZMA_VLI_MAX + 1), 0);
    for &v in &[0u64, 1, 127, 128, 300, 1 << 35, LZMA_VLI_MAX] {
        let mut out = [0u8; 9];
        let mut pos = 0usize;
        assert_eq!(lzma_vli_encode(v, None, &mut out, &mut pos), LZMA_OK);
        assert_eq!(pos, lzma_vli_size(v) as usize);
        let mut back = 0u64;
        let mut in_pos = 0usize;
        assert_eq!(lzma_vli_decode(&mut back, None, &out[..pos], &mut in_pos), LZMA_OK);
        assert_eq!(back, v);
        assert_eq!(in_pos, pos);
    }
    let mut out = [0u8; 2];
    let mut pos = 0usize;
    assert_eq!(lzma_vli_encode(300, None, &mut out, &mut pos), LZMA_OK);
    assert_eq!(out, [0xac, 0x02]);
}

#[test]
fn vli_errors() {
    let mut out = [0u8; 1];
    let mut pos = 0usize;
    assert_eq!(lzma_vli_encode(300, None, &mut out, &mut pos), LZMA_PROG_ERROR);
    let mut v = 0u64;
    let mut in_pos = 0usize;
    // A trailing zero byte after a continuation byte is not minimal.
    assert_eq!(lzma_vli_decode(&mut v, None, &[0x80, 0x00], &mut in_pos), LZMA_DATA_ERROR);
    let mut vli_pos = 0usize;
    let mut in_pos = 0usize;
    let mut v = 0u64;
    assert_eq!(lzma_vli_decode(&mut v, Some(&mut vli_pos), &[0x80], &mut in_pos), LZMA_OK);
    assert_eq!(lzma_vli_decode(&mut v, Some(&mut vli_pos), &[], &mut 0), LZMA_BUF_ERROR);
    let mut in_pos = 0usize;
    assert_eq!(lzma_vli_decode(&mut v, Some(&mut vli_pos), &[0x01], &mut in_pos), LZMA_STREAM_END);
    assert_eq!(v, 128);
}

#[test]
fn stream_header_and_footer_round_trip() {
    let flags = StreamFlags { version: 0, backward_size: 64, check: LZMA_CHECK_CRC64 };
    let mut header = [0u8; 12];
    assert_eq!(lzma_stream_header_encode(&flags, &mut header), LZMA_OK);
    assert_eq!(&header[..8], &[0xfd, 0x37, 0x7a, 0x58, 0x5a, 0x00, 0x00, 0x04]);
    assert_eq!(&header[8..], &crc32(&[0x00, 0x04], 0).to_le_bytes());
    let mut decoded = StreamFlags { version: 9, backward_size: 0, check: 0 };
    assert_eq!(lzma_stream_header_decode(&mut decoded, &header), LZMA_OK);
    assert_eq!(decoded.check, LZMA_CHECK_CRC64);
    assert_eq!(decoded.backward_size, LZMA_VLI_UNKNOWN);

    let mut footer = [0u8; 12];
    assert_eq!(lzma_stream_footer_encode(&flags, &mut footer), LZMA_OK);
    assert_eq!(&footer[4..], &[15, 0, 0, 0, 0x00, 0x04, 0x59, 0x5a]);
    let mut back = StreamFlags { version: 9, backward_size: 0, check: 0 };
    assert_eq!(lzma_stream_footer_decode(&mut back, &footer), LZMA_OK);
    assert_eq!(back, flags);
    assert_eq!(lzma_stream_flags_compare(&decoded, &back), LZMA_OK);

    header[0] = 0;
    assert_eq!(lzma_stream_header_decode(&mut decoded, &header), LZMA_FORMAT_ERROR);
    footer[0] ^= 1;
    assert_eq!(lzma_stream_footer_decode(&mut back, &footer), LZMA_DATA_ERROR);

    let bad = StreamFlags { version: 0, backward_size: 6, check: 0 };
    assert_eq!(lzma_stream_footer_encode(&bad, &mut footer), LZMA_PROG_ERROR);
    let other = StreamFlags { version: 0, backward_size: LZMA_VLI_UNKNOWN, check: 1 };
    assert_eq!(lzma_stream_flags_compare(&flags, &other), LZMA_DATA_ERROR);
}

#[test]
fn index_hash_accepts_the_matching_index() {
    let mut h = lzma_index_hash_init();
    assert_eq!(lzma_index_hash_append(&mut h, 16, 10), LZMA_OK);
    assert_eq!(lzma_index_hash_size(&h), 8);
    let mut index = vec![0x00, 0x01, 0x10, 0x0a];
    let crc = crc32(&index, 0);
    index.extend_from_slice(&crc.to_le_bytes());
    let mut pos = 0usize;
    assert_eq!(lzma_index_hash_decode(&mut h, &index, &mut pos), LZMA_STREAM_END);
    assert_eq!(pos, 8);
}

#[test]
fn index_hash_refuses_a_different_index() {
    let mut h = lzma_index_hash_init();
    assert_eq!(lzma_index_hash_append(&mut h, 16, 10), LZMA_OK);
    let mut index = vec![0x00, 0x01, 0x10, 0x0b];
    let crc = crc32(&index, 0);
    index.extend_from_slice(&crc.to_le_bytes());
    let mut pos = 0usize;
    assert_eq!(lzma_index_hash_decode(&mut h, &index, &mut pos), LZMA_DATA_ERROR);
    let mut h2 = lzma_index_hash_init();
    assert_eq!(lzma_index_hash_append(&mut h2, 4, 10), LZMA_PROG_ERROR);
}

#[test]
fn presets_and_version() {
    assert_eq!(lzma_version_number(), 50080032);
    assert_eq!(lzma_version_string(), "5.8.3");
    let mut raw = LzmaRaw { dict_size: 0, lc: 0, lp: 0, pb: 0, mode: 0, nice_len: 0, mf: 0, depth: 0 };
    assert!(!lzma_lzma_preset(&mut raw, 0));
    assert_eq!(raw.dict_size, 256 << 10);
    assert_eq!(raw.depth, 4);
    assert!(lzma_lzma_preset(&mut raw, 10));
    assert_eq!(raw.dict_size, 256 << 10);

    let mut easy = OptionsEasy {
        filters: [Filter { id: 0, options: FilterOptions::Absent }; 5],
        opt_lzma: raw,
    };
    assert!(!lzma_easy_preset(&mut easy, 9));
    assert_eq!(easy.opt_lzma.dict_size, 64 << 20);
    assert_eq!(easy.filters[0].id, LZMA_FILTER_LZMA2);
    assert_eq!(easy.filters[1].id, LZMA_VLI_UNKNOWN);
    assert_eq!(lzma_mt_block_size(&easy.filters), 3 * (64 << 20));
}

#[test]
fn filter_chains_and_properties() {
    let opts = LzmaRaw { dict_size: 1 << 20, lc: 3, lp: 0, pb: 2, mode: 2, nice_len: 64, mf: 0x14, depth: 0 };
    let end = Filter { id: LZMA_VLI_UNKNOWN, options: FilterOptions::Absent };
    let lzma2 = Filter { id: LZMA_FILTER_LZMA2, options: FilterOptions::Lzma(opts) };
    let x86 = Filter { id: LZMA_FILTER_X86, options: FilterOptions::Absent };
    assert_eq!(lzma_validate_chain(&[x86, lzma2, end]), Ok(2));
    assert_eq!(lzma_validate_chain(&[end]), Err(LZMA_PROG_ERROR));
    assert_eq!(lzma_validate_chain(&[lzma2, x86, end]), Err(LZMA_OPTIONS_ERROR));
    assert_eq!(lzma_validate_chain(&[x86, end]), Err(LZMA_OPTIONS_ERROR));
    assert_eq!(lzma_validate_chain(&[x86, x86, x86, x86, lzma2, end]), Err(LZMA_OPTIONS_ERROR));

    assert!(lzma_filter_encoder_is_supported(LZMA_FILTER_ARM));
    assert!(lzma_filter_decoder_is_supported(LZMA_FILTER_DELTA));
    assert!(!lzma_filter_decoder_is_supported(0x42));
    let feat = filter_features_of(LZMA_FILTER_DELTA).unwrap();
    assert!(feat.non_last_ok && !feat.last_ok && !feat.changes_size);
    assert!(filter_features_of(0x42).is_none());

    let mut size = 0u32;
    assert_eq!(lzma_properties_size(&mut size, &lzma2), LZMA_OK);
    assert_eq!(size, 1);
    let mut props = [0u8; 1];
    assert_eq!(lzma_properties_encode(&lzma2, &mut props), LZMA_OK);
    assert_eq!(props, [16]);
    let mut f = Filter { id: LZMA_FILTER_LZMA2, options: FilterOptions::Absent };
    assert_eq!(lzma_properties_decode(&mut f, &props), LZMA_OK);
    assert_eq!(f.options, FilterOptions::Lzma(LzmaRaw {
        dict_size: 1 << 20, lc: 0, lp: 0, pb: 0, mode: 0, nice_len: 0, mf: 0, depth: 0,
    }));

    let lzma1 = Filter { id: LZMA_FILTER_LZMA1, options: FilterOptions::Lzma(opts) };
    let mut p5 = [0u8; 5];
    assert_eq!(lzma_properties_size(&mut size, &lzma1), LZMA_OK);
    assert_eq!(size, 5);
    assert_eq!(lzma_properties_encode(&lzma1, &mut p5), LZMA_OK);
    assert_eq!(p5, [0x5d, 0x00, 0x00, 0x10, 0x00]);
    let mut unknown = Filter { id: 0x42, options: FilterOptions::Absent };
    assert_eq!(lzma_properties_decode(&mut unknown, &[]), LZMA_OPTIONS_ERROR);
}
