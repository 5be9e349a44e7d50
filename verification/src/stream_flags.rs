//! Stream Header and Stream Footer of the .xz format.
use vstd::prelude::*;
use crate::crc::{crc32, crc32_of};
use crate::types::{
    lemma_le32_roundtrip, le32_bytes, le32_value, read32le, write32le, LZMA_BACKWARD_SIZE_MAX, LZMA_BACKWARD_SIZE_MIN,
    LZMA_CHECK_ID_MAX, LZMA_DATA_ERROR, LZMA_FORMAT_ERROR, LZMA_OK, LZMA_OPTIONS_ERROR,
    LZMA_PROG_ERROR, LZMA_VLI_UNKNOWN,
};

verus! {

/// Options encoded in the Stream Header and Stream Footer.
#[derive(Clone, Copy, Debug, PartialEq, Eq)]
pub struct StreamFlags {
    /// Format version; only 0 exists.
    pub version: u32,
    /// Size of the Index field, or `LZMA_VLI_UNKNOWN` when unknown (as after
    /// decoding a Stream Header).
    pub backward_size: u64,
    /// Integrity check ID.
    pub check: u32,
}

/// The six magic bytes that open a Stream Header.
pub open spec fn header_magic() -> Seq<u8> {
    seq![0xfdu8, 0x37u8, 0x7au8, 0x58u8, 0x5au8, 0x00u8]
}

/// The two magic bytes that close a Stream Footer.
pub open spec fn footer_magic() -> Seq<u8> {
    seq![0x59u8, 0x5au8]
}

/// The Backward Size is in range and a multiple of four.
pub open spec fn backward_size_valid(flags: StreamFlags) -> bool {
    &&& LZMA_BACKWARD_SIZE_MIN <= flags.backward_size <= LZMA_BACKWARD_SIZE_MAX
    &&& flags.backward_size % 4 == 0
}

/// The two Stream Flags bytes of `flags`.
pub open spec fn flags_bytes(flags: StreamFlags) -> Seq<u8> {
    seq![0u8, flags.check as u8]
}

/// The twelve bytes of the Stream Header for `flags`.
pub open spec fn header_bytes(flags: StreamFlags) -> Seq<u8> {
    header_magic() + flags_bytes(flags) + le32_bytes(crc32_of(flags_bytes(flags), 0))
}

/// The stored Backward Size field: a quarter of the size, less one.
pub open spec fn backward_field(flags: StreamFlags) -> u32 {
    (flags.backward_size / 4 - 1) as u32
}

/// The twelve bytes of the Stream Footer for `flags`.
pub open spec fn footer_bytes(flags: StreamFlags) -> Seq<u8> {
    let body = le32_bytes(backward_field(flags)) + flags_bytes(flags);
    le32_bytes(crc32_of(body, 0)) + body + footer_magic()
}

/// What decoding the twelve bytes `s` as a Stream Header gives: the flags, or
/// the error code.
pub open spec fn header_decode_result(s: Seq<u8>) -> Result<StreamFlags, u32> {
    if s.take(6) != header_magic() {
        Err(LZMA_FORMAT_ERROR)
    } else if crc32_of(s.subrange(6, 8), 0) != le32_value(s[8], s[9], s[10], s[11]) {
        Err(LZMA_DATA_ERROR)
    } else if s[6] != 0 || s[7] & 0xf0 != 0 {
        Err(LZMA_OPTIONS_ERROR)
    } else {
        Ok(StreamFlags { version: 0, backward_size: LZMA_VLI_UNKNOWN, check: (s[7] & 0xf) as u32 })
    }
}

/// What decoding the twelve bytes `s` as a Stream Footer gives: the flags, or
/// the error code.
pub open spec fn footer_decode_result(s: Seq<u8>) -> Result<StreamFlags, u32> {
    if s.subrange(10, 12) != footer_magic() {
        Err(LZMA_FORMAT_ERROR)
    } else if crc32_of(s.subrange(4, 10), 0) != le32_value(s[0], s[1], s[2], s[3]) {
        Err(LZMA_DATA_ERROR)
    } else if s[8] != 0 || s[9] & 0xf0 != 0 {
        Err(LZMA_OPTIONS_ERROR)
    } else {
        Ok(
            StreamFlags {
                version: 0,
                backward_size: ((le32_value(s[4], s[5], s[6], s[7]) + 1) * 4) as u64,
                check: (s[9] & 0xf) as u32,
            },
        )
    }
}

/// Returns true when the Backward Size of `flags` is valid.
pub fn is_backward_size_valid(flags: &StreamFlags) -> (r: bool)
    ensures
        r == backward_size_valid(*flags),
{
    flags.backward_size >= LZMA_BACKWARD_SIZE_MIN && flags.backward_size <= LZMA_BACKWARD_SIZE_MAX
        && flags.backward_size % 4 == 0
}

/// What comparing the Stream Flags `a` and `b` gives.
pub open spec fn flags_compare(a: StreamFlags, b: StreamFlags) -> u32 {
    if a.version != 0 || b.version != 0 {
        LZMA_OPTIONS_ERROR
    } else if a.check > LZMA_CHECK_ID_MAX || b.check > LZMA_CHECK_ID_MAX {
        LZMA_PROG_ERROR
    } else if a.check != b.check {
        LZMA_DATA_ERROR
    } else if a.backward_size != LZMA_VLI_UNKNOWN && b.backward_size != LZMA_VLI_UNKNOWN {
        if !backward_size_valid(a) || !backward_size_valid(b) {
            LZMA_PROG_ERROR
        } else if a.backward_size != b.backward_size {
            LZMA_DATA_ERROR
        } else {
            LZMA_OK
        }
    } else {
        LZMA_OK
    }
}

/// Compares two sets of Stream Flags: `LZMA_OK` when they agree,
/// `LZMA_DATA_ERROR` when they differ, `LZMA_OPTIONS_ERROR` for an unknown
/// version and `LZMA_PROG_ERROR` for invalid values. A Backward Size of
/// `LZMA_VLI_UNKNOWN` on either side is not compared.
pub fn lzma_stream_flags_compare(a: &StreamFlags, b: &StreamFlags) -> (ret: u32)
    ensures
        ret == flags_compare(*a, *b),
{
    if a.version != 0 || b.version != 0 {
        return LZMA_OPTIONS_ERROR;
    }
    if a.check > LZMA_CHECK_ID_MAX || b.check > LZMA_CHECK_ID_MAX {
        return LZMA_PROG_ERROR;
    }
    if a.check != b.check {
        return LZMA_DATA_ERROR;
    }
    if a.backward_size != LZMA_VLI_UNKNOWN && b.backward_size != LZMA_VLI_UNKNOWN {
        if !is_backward_size_valid(a) || !is_backward_size_valid(b) {
            return LZMA_PROG_ERROR;
        }
        if a.backward_size != b.backward_size {
            return LZMA_DATA_ERROR;
        }
    }
    LZMA_OK
}

/// Decodes the two Stream Flags bytes; true means they are not supported.
fn stream_flags_decode(options: &mut StreamFlags, b0: u8, b1: u8) -> (bad: bool)
    ensures
        bad == (b0 != 0 || b1 & 0xf0 != 0),
        bad ==> *final(options) == *old(options),
        !bad ==> final(options).version == 0 && final(options).check == (b1 & 0xf) as u32
            && final(options).backward_size == old(options).backward_size,
{
    if b0 != 0 || b1 & 0xf0 != 0 {
        return true;
    }
    options.version = 0;
    options.check = (b1 & 0xf) as u32;
    false
}

/// Decodes a Stream Header.
///
/// Returns `LZMA_FORMAT_ERROR` when the magic bytes are wrong,
/// `LZMA_DATA_ERROR` when the CRC32 does not match and `LZMA_OPTIONS_ERROR`
/// for unsupported flags. On success the Backward Size is set to
/// `LZMA_VLI_UNKNOWN`, as the header does not hold it.
pub fn lzma_stream_header_decode(options: &mut StreamFlags, input: &[u8; 12]) -> (ret: u32)
    ensures
        match header_decode_result(input@) {
            Ok(f) => ret == LZMA_OK && *final(options) == f,
            Err(e) => ret == e && *final(options) == *old(options),
        },
{
    if !(input[0] == 0xfd && input[1] == 0x37 && input[2] == 0x7a && input[3] == 0x58 && input[4]
        == 0x5a && input[5] == 0x00) {
        assert(input@.take(6) != header_magic()) by {
            if input@.take(6) == header_magic() {
                assert(input@.take(6)[0] == input@[0]);
                assert(input@.take(6)[5] == input@[5]);
            }
        }
        return LZMA_FORMAT_ERROR;
    }
    assert(input@.take(6) == header_magic());
    let flags = [input[6], input[7]];
    assert(flags@ == input@.subrange(6, 8));
    let crc = crc32(flags.as_slice(), 0);
    if crc != read32le(input[8], input[9], input[10], input[11]) {
        return LZMA_DATA_ERROR;
    }
    if stream_flags_decode(options, input[6], input[7]) {
        return LZMA_OPTIONS_ERROR;
    }
    options.backward_size = LZMA_VLI_UNKNOWN;
    LZMA_OK
}

/// Decodes a Stream Footer.
///
/// Returns `LZMA_FORMAT_ERROR` when the magic bytes are wrong,
/// `LZMA_DATA_ERROR` when the CRC32 does not match and `LZMA_OPTIONS_ERROR`
/// for unsupported flags. On success the Backward Size is the stored field
/// plus one, times four.
pub fn lzma_stream_footer_decode(options: &mut StreamFlags, input: &[u8; 12]) -> (ret: u32)
    ensures
        match footer_decode_result(input@) {
            Ok(f) => ret == LZMA_OK && *final(options) == f,
            Err(e) => ret == e && *final(options) == *old(options),
        },
{
    if !(input[10] == 0x59 && input[11] == 0x5a) {
        assert(input@.subrange(10, 12) != footer_magic()) by {
            if input@.subrange(10, 12) == footer_magic() {
                assert(input@.subrange(10, 12)[0] == input@[10]);
                assert(input@.subrange(10, 12)[1] == input@[11]);
            }
        }
        return LZMA_FORMAT_ERROR;
    }
    assert(input@.subrange(10, 12) == footer_magic());
    let body = [input[4], input[5], input[6], input[7], input[8], input[9]];
    assert(body@ == input@.subrange(4, 10));
    let crc = crc32(body.as_slice(), 0);
    if crc != read32le(input[0], input[1], input[2], input[3]) {
        return LZMA_DATA_ERROR;
    }
    if stream_flags_decode(options, input[8], input[9]) {
        return LZMA_OPTIONS_ERROR;
    }
    let field = read32le(input[4], input[5], input[6], input[7]);
    options.backward_size = (field as u64 + 1) * 4;
    LZMA_OK
}

/// Encodes the two Stream Flags bytes; true means the check ID is invalid,
/// and then nothing is written.
fn stream_flags_encode(options: &StreamFlags, out: &mut [u8; 2]) -> (bad: bool)
    ensures
        bad == (options.check > LZMA_CHECK_ID_MAX),
        bad ==> final(out)@ == old(out)@,
        !bad ==> final(out)@ == flags_bytes(*options),
{
    if options.check > LZMA_CHECK_ID_MAX {
        return true;
    }
    out[0] = 0;
    out[1] = options.check as u8;
    false
}

/// Encodes a Stream Header.
///
/// Returns `LZMA_OPTIONS_ERROR` for a version other than 0 (nothing written)
/// and `LZMA_PROG_ERROR` for an invalid check ID (only the magic bytes
/// written).
pub fn lzma_stream_header_encode(options: &StreamFlags, out: &mut [u8; 12]) -> (ret: u32)
    ensures
        options.version != 0 ==> ret == LZMA_OPTIONS_ERROR && final(out)@ == old(out)@,
        options.version == 0 && options.check > LZMA_CHECK_ID_MAX ==> ret == LZMA_PROG_ERROR
            && final(out)@ == header_magic() + old(out)@.skip(6),
        options.version == 0 && options.check <= LZMA_CHECK_ID_MAX ==> ret == LZMA_OK
            && final(out)@ == header_bytes(*options),
{
    if options.version != 0 {
        return LZMA_OPTIONS_ERROR;
    }
    out[0] = 0xfd;
    out[1] = 0x37;
    out[2] = 0x7a;
    out[3] = 0x58;
    out[4] = 0x5a;
    out[5] = 0x00;
    let mut flags = [out[6], out[7]];
    if stream_flags_encode(options, &mut flags) {
        assert(out@ == header_magic() + old(out)@.skip(6));
        return LZMA_PROG_ERROR;
    }
    out[6] = flags[0];
    out[7] = flags[1];
    let crc = crc32(flags.as_slice(), 0);
    let c = write32le(crc);
    out[8] = c[0];
    out[9] = c[1];
    out[10] = c[2];
    out[11] = c[3];
    assert(out@ == header_bytes(*options));
    LZMA_OK
}

/// Encodes a Stream Footer.
///
/// Returns `LZMA_OPTIONS_ERROR` for a version other than 0 and
/// `LZMA_PROG_ERROR` for an invalid Backward Size (nothing written in either
/// case), and `LZMA_PROG_ERROR` for an invalid check ID (only the Backward
/// Size field written).
pub fn lzma_stream_footer_encode(options: &StreamFlags, out: &mut [u8; 12]) -> (ret: u32)
    ensures
        options.version != 0 ==> ret == LZMA_OPTIONS_ERROR && final(out)@ == old(out)@,
        options.version == 0 && !backward_size_valid(*options) ==> ret == LZMA_PROG_ERROR
            && final(out)@ == old(out)@,
        options.version == 0 && backward_size_valid(*options) && options.check > LZMA_CHECK_ID_MAX
            ==> ret == LZMA_PROG_ERROR && final(out)@ == old(out)@.take(4) + le32_bytes(
            backward_field(*options),
        ) + old(out)@.skip(8),
        options.version == 0 && backward_size_valid(*options) && options.check
            <= LZMA_CHECK_ID_MAX ==> ret == LZMA_OK && final(out)@ == footer_bytes(*options),
{
    if options.version != 0 {
        return LZMA_OPTIONS_ERROR;
    }
    if !is_backward_size_valid(options) {
        return LZMA_PROG_ERROR;
    }
    let field = (options.backward_size / 4 - 1) as u32;
    let b = write32le(field);
    out[4] = b[0];
    out[5] = b[1];
    out[6] = b[2];
    out[7] = b[3];
    let mut flags = [out[8], out[9]];
    if stream_flags_encode(options, &mut flags) {
        assert(out@ == old(out)@.take(4) + le32_bytes(backward_field(*options)) + old(out)@.skip(8));
        return LZMA_PROG_ERROR;
    }
    out[8] = flags[0];
    out[9] = flags[1];
    let body = [b[0], b[1], b[2], b[3], flags[0], flags[1]];
    assert(body@ == le32_bytes(backward_field(*options)) + flags_bytes(*options));
    let crc = crc32(body.as_slice(), 0);
    let c = write32le(crc);
    out[0] = c[0];
    out[1] = c[1];
    out[2] = c[2];
    out[3] = c[3];
    out[10] = 0x59;
    out[11] = 0x5a;
    assert(out@ == footer_bytes(*options));
    LZMA_OK
}

proof fn lemma_check_byte(check: u32)
    requires
        check <= LZMA_CHECK_ID_MAX,
    ensures
        (check as u8) & 0xf0 == 0,
        ((check as u8) & 0xf) as u32 == check,
{
    assert(check <= 15 ==> (check as u8) & 0xf0 == 0 && ((check as u8) & 0xf) as u32 == check)
        by (bit_vector);
}

/// A Stream Header that was encoded from valid flags decodes to the same
/// flags, with the Backward Size unknown.
pub proof fn law_stream_header_roundtrip(flags: StreamFlags)
    requires
        flags.version == 0,
        flags.check <= LZMA_CHECK_ID_MAX,
    ensures
        header_decode_result(header_bytes(flags)) == Ok::<StreamFlags, u32>(
            StreamFlags { backward_size: LZMA_VLI_UNKNOWN, ..flags },
        ),
{
    let s = header_bytes(flags);
    let c = crc32_of(flags_bytes(flags), 0);
    lemma_le32_roundtrip(c);
    lemma_check_byte(flags.check);
    assert(s.take(6) == header_magic());
    assert(s.subrange(6, 8) == flags_bytes(flags));
}

/// A Stream Footer that was encoded from valid flags decodes to the same
/// flags.
pub proof fn law_stream_footer_roundtrip(flags: StreamFlags)
    requires
        flags.version == 0,
        flags.check <= LZMA_CHECK_ID_MAX,
        backward_size_valid(flags),
    ensures
        footer_decode_result(footer_bytes(flags)) == Ok::<StreamFlags, u32>(flags),
{
    let s = footer_bytes(flags);
    let field = backward_field(flags);
    let body = le32_bytes(field) + flags_bytes(flags);
    let c = crc32_of(body, 0);
    lemma_le32_roundtrip(c);
    lemma_le32_roundtrip(field);
    lemma_check_byte(flags.check);
    assert(s.subrange(10, 12) == footer_magic());
    assert(s.subrange(4, 10) == body);
    assert(s[4] == le32_bytes(field)[0] && s[5] == le32_bytes(field)[1] && s[6] == le32_bytes(
        field,
    )[2] && s[7] == le32_bytes(field)[3]);
    assert((field + 1) * 4 == flags.backward_size);
}

} // verus!
