//! Return codes, limits and identifiers shared by every part of the library.
use vstd::prelude::*;

verus! {

/// Operation completed successfully.
pub const LZMA_OK: u32 = 0;
/// End of stream was reached.
pub const LZMA_STREAM_END: u32 = 1;
/// Input stream has no integrity check.
pub const LZMA_NO_CHECK: u32 = 2;
/// Cannot calculate the integrity check.
pub const LZMA_UNSUPPORTED_CHECK: u32 = 3;
/// Integrity check type is now available.
pub const LZMA_GET_CHECK: u32 = 4;
/// Cannot allocate memory.
pub const LZMA_MEM_ERROR: u32 = 5;
/// Memory usage limit was reached.
pub const LZMA_MEMLIMIT_ERROR: u32 = 6;
/// File format not recognized.
pub const LZMA_FORMAT_ERROR: u32 = 7;
/// Invalid or unsupported options.
pub const LZMA_OPTIONS_ERROR: u32 = 8;
/// Data is corrupt.
pub const LZMA_DATA_ERROR: u32 = 9;
/// No progress is possible.
pub const LZMA_BUF_ERROR: u32 = 10;
/// Programming error.
pub const LZMA_PROG_ERROR: u32 = 11;
/// Request to change the input file position.
pub const LZMA_SEEK_NEEDED: u32 = 12;
/// Internal code: a threaded coder timed out.
pub const LZMA_TIMED_OUT: u32 = 101;

/// Maximum number of bytes of an encoded variable-length integer.
pub const LZMA_VLI_BYTES_MAX: usize = 9;
/// Largest value a variable-length integer can hold (2^63 - 1).
pub const LZMA_VLI_MAX: u64 = 0x7fff_ffff_ffff_ffff;
/// Marker for an unknown variable-length integer.
pub const LZMA_VLI_UNKNOWN: u64 = 0xffff_ffff_ffff_ffff;

/// Size of the Stream Header and of the Stream Footer.
pub const LZMA_STREAM_HEADER_SIZE: usize = 12;
/// Size of the Stream Flags field.
pub const LZMA_STREAM_FLAGS_SIZE: usize = 2;
/// Smallest valid Backward Size.
pub const LZMA_BACKWARD_SIZE_MIN: u64 = 4;
/// Largest valid Backward Size (2^34).
pub const LZMA_BACKWARD_SIZE_MAX: u64 = 0x4_0000_0000;

/// Largest valid integrity check ID.
pub const LZMA_CHECK_ID_MAX: u32 = 15;
/// Largest integrity check output, in bytes.
pub const LZMA_CHECK_SIZE_MAX: u32 = 64;
/// No integrity check.
pub const LZMA_CHECK_NONE: u32 = 0;
/// CRC32 integrity check.
pub const LZMA_CHECK_CRC32: u32 = 1;
/// CRC64 integrity check.
pub const LZMA_CHECK_CRC64: u32 = 4;
/// SHA-256 integrity check.
pub const LZMA_CHECK_SHA256: u32 = 10;

/// Smallest Block Header size.
pub const LZMA_BLOCK_HEADER_SIZE_MIN: u32 = 8;
/// Largest Block Header size.
pub const LZMA_BLOCK_HEADER_SIZE_MAX: u32 = 1024;
/// Largest number of filters in a chain.
pub const LZMA_FILTERS_MAX: usize = 4;

/// Smallest Unpadded Size of a Block.
pub const UNPADDED_SIZE_MIN: u64 = 5;
/// Largest Unpadded Size of a Block (2^63 - 4).
pub const UNPADDED_SIZE_MAX: u64 = 0x7fff_ffff_ffff_fffc;
/// Largest Compressed Size of a Block: the VLI limit less the largest Block
/// Header and check, rounded down to a multiple of four.
pub const COMPRESSED_SIZE_MAX: u64 = 0x7fff_ffff_ffff_fbbc;

/// Index Indicator byte that starts an Index.
pub const INDEX_INDICATOR: u8 = 0;

/// Filter ID of LZMA1.
pub const LZMA_FILTER_LZMA1: u64 = 0x4000_0000_0000_0001;
/// Filter ID of LZMA1 with end-of-payload marker.
pub const LZMA_FILTER_LZMA1EXT: u64 = 0x4000_0000_0000_0002;
/// Filter ID of LZMA2.
pub const LZMA_FILTER_LZMA2: u64 = 0x21;
/// Filter ID of the delta filter.
pub const LZMA_FILTER_DELTA: u64 = 0x03;
/// Filter ID of the x86 branch converter.
pub const LZMA_FILTER_X86: u64 = 0x04;
/// Filter ID of the PowerPC branch converter.
pub const LZMA_FILTER_POWERPC: u64 = 0x05;
/// Filter ID of the IA-64 branch converter.
pub const LZMA_FILTER_IA64: u64 = 0x06;
/// Filter ID of the ARM branch converter.
pub const LZMA_FILTER_ARM: u64 = 0x07;
/// Filter ID of the ARM-Thumb branch converter.
pub const LZMA_FILTER_ARMTHUMB: u64 = 0x08;
/// Filter ID of the SPARC branch converter.
pub const LZMA_FILTER_SPARC: u64 = 0x09;
/// Filter ID of the ARM64 branch converter.
pub const LZMA_FILTER_ARM64: u64 = 0x0a;
/// Filter ID of the RISC-V branch converter.
pub const LZMA_FILTER_RISCV: u64 = 0x0b;

/// Decoder flag: report when the stream has no integrity check.
pub const LZMA_TELL_NO_CHECK: u32 = 0x01;
/// Decoder flag: report when the integrity check is unsupported.
pub const LZMA_TELL_UNSUPPORTED_CHECK: u32 = 0x02;
/// Decoder flag: report the integrity check as soon as it is known.
pub const LZMA_TELL_ANY_CHECK: u32 = 0x04;
/// Decoder flag: do not verify the integrity check.
pub const LZMA_IGNORE_CHECK: u32 = 0x10;
/// Decoder flag: decode concatenated streams.
pub const LZMA_CONCATENATED: u32 = 0x08;
/// Decoder flag: fail on a trailing non-xz input.
pub const LZMA_FAIL_FAST: u32 = 0x20;

/// Default compression preset.
pub const LZMA_PRESET_DEFAULT: u32 = 6;
/// Mask of the level bits of a preset.
pub const LZMA_PRESET_LEVEL_MASK: u32 = 0x1f;
/// Flag requesting the slower extreme variant of a preset.
pub const LZMA_PRESET_EXTREME: u32 = 0x8000_0000;

/// Value of `x` rounded up to the next multiple of four.
pub open spec fn ceil4(x: int) -> int {
    if x % 4 == 0 { x } else { x + (4 - x % 4) }
}

/// Rounds `vli` up to the next multiple of four.
pub fn vli_ceil4(vli: u64) -> (r: u64)
    requires
        vli <= LZMA_VLI_MAX,
    ensures
        r == ceil4(vli as int),
        r % 4 == 0,
        vli <= r < vli + 4,
{
    (vli + 3) / 4 * 4
}

/// Little-endian bytes of `x`.
pub open spec fn le32_bytes(x: u32) -> Seq<u8> {
    seq![x as u8, (x >> 8u32) as u8, (x >> 16u32) as u8, (x >> 24u32) as u8]
}

/// Value of four little-endian bytes.
pub open spec fn le32_value(b0: u8, b1: u8, b2: u8, b3: u8) -> u32 {
    (b0 as u32) | ((b1 as u32) << 8u32) | ((b2 as u32) << 16u32) | ((b3 as u32) << 24u32)
}

/// Reading back the little-endian bytes of a value gives the value.
pub proof fn lemma_le32_roundtrip(x: u32)
    ensures
        le32_value(le32_bytes(x)[0], le32_bytes(x)[1], le32_bytes(x)[2], le32_bytes(x)[3]) == x,
{
    assert((x as u8 as u32) | (((x >> 8u32) as u8 as u32) << 8u32) | (((x >> 16u32) as u8 as u32)
        << 16u32) | (((x >> 24u32) as u8 as u32) << 24u32) == x) by (bit_vector);
}

/// Reads a little-endian 32-bit value from four bytes.
pub fn read32le(b0: u8, b1: u8, b2: u8, b3: u8) -> (r: u32)
    ensures
        r == le32_value(b0, b1, b2, b3),
{
    (b0 as u32) | ((b1 as u32) << 8u32) | ((b2 as u32) << 16u32) | ((b3 as u32) << 24u32)
}

/// Splits a 32-bit value into its four little-endian bytes.
pub fn write32le(x: u32) -> (r: [u8; 4])
    ensures
        r@ == le32_bytes(x),
{
    let r = [x as u8, (x >> 8u32) as u8, (x >> 16u32) as u8, (x >> 24u32) as u8];
    assert(r@ == le32_bytes(x));
    r
}

} // verus!
