use xz::check::{lzma_check_finish, lzma_check_init, lzma_check_size, lzma_check_update};
use xz::crc::{crc32, crc64};
use xz::types::{LZMA_CHECK_CRC32, LZMA_CHECK_CRC64, LZMA_CHECK_SHA256};

fn finish_check(check_type: u32, input: &[u8]) -> Vec<u8> {
    let mut check = lzma_check_init(check_type);
    lzma_check_update(&mut check, check_type, input);
    lzma_check_finish(&mut check, check_type)
}

#[test]
fn crc_functions_match_standard_check_vectors() {
    let input = b"123456789";

    assert_eq!(crc32(input, 0), 0xcbf4_3926);
    assert_eq!(crc64(input, 0), 0x995d_c9bb_df19_39fa);
}

#[test]
fn check_finish_writes_crc_bytes_in_little_endian_order() {
    let input = b"abc";

    let crc32_value = crc32(input, 0);
    let out32 = finish_check(LZMA_CHECK_CRC32, input);
    assert_eq!(&out32[..4], &crc32_value.to_le_bytes());

    let crc64_value = crc64(input, 0);
    let out64 = finish_check(LZMA_CHECK_CRC64, input);
    assert_eq!(&out64[..8], &crc64_value.to_le_bytes());
}

#[test]
fn sha256_check_matches_standard_vector() {
    let expected = [
        0xba, 0x78, 0x16, 0xbf, 0x8f, 0x01, 0xcf, 0xea, 0x41, 0x41, 0x40, 0xde, 0x5d, 0xae, 0x22,
        0x23, 0xb0, 0x03, 0x61, 0xa3, 0x96, 0x17, 0x7a, 0x9c, 0xb4, 0x10, 0xff, 0x61, 0xf2, 0x00,
        0x15, 0xad,
    ];

    let check = finish_check(LZMA_CHECK_SHA256, b"abc");
    let size = lzma_check_size(LZMA_CHECK_SHA256) as usize;
    assert_eq!(size, expected.len());
    assert_eq!(&check[..size], expected);
}
