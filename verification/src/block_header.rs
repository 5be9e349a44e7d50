//! The Block Header: its size, its encoding and its decoding.
use vstd::prelude::*;
use crate::block::{lzma_block, lzma_block_unpadded_size, unpadded_size_spec};
use crate::crc::{crc32, crc32_of};
use crate::filter::{Filter, FilterOptions};
use crate::filter::props_canonical;
use crate::filter_flags::{
    filter_flags_bytes, filter_flags_parse, filter_flags_size_spec, law_filter_flags_roundtrip,
    lzma_filter_flags_decode, lzma_filter_flags_encode, lzma_filter_flags_size, read_vli,
};
use crate::types::{
    ceil4, le32_bytes, le32_value, lemma_le32_roundtrip, read32le, write32le, LZMA_CHECK_ID_MAX,
    LZMA_DATA_ERROR, LZMA_FILTERS_MAX, LZMA_OK, LZMA_OPTIONS_ERROR, LZMA_PROG_ERROR, LZMA_VLI_MAX,
    LZMA_VLI_UNKNOWN,
};
use crate::vli::{
    law_vli_roundtrip, lemma_vli_run_used, lemma_vli_size_bounds, lzma_vli_decode,
    lzma_vli_encode, lzma_vli_size, vli_encoding, vli_size_spec,
};

verus! {

/// The end marker of a filter chain.
pub open spec fn end_filter() -> Filter {
    Filter { id: LZMA_VLI_UNKNOWN, options: FilterOptions::Absent }
}

/// Total size of the Filter Flags of filters `i`.. of `fs`, up to the end
/// marker; `LZMA_PROG_ERROR` for a fifth filter.
pub open spec fn flags_size_from(fs: Seq<Filter>, i: nat) -> Result<nat, u32>
    decreases 5 - i,
{
    if i >= 5 || i >= fs.len() || fs[i as int].id == LZMA_VLI_UNKNOWN {
        Ok(0)
    } else if i == LZMA_FILTERS_MAX {
        Err(LZMA_PROG_ERROR)
    } else {
        match filter_flags_size_spec(fs[i as int]) {
            Err(e) => Err(e),
            Ok(n) => match flags_size_from(fs, i + 1) {
                Ok(m) => Ok(n + m),
                Err(e) => Err(e),
            },
        }
    }
}

/// Size of the optional size field for `v` (absent when unknown).
pub open spec fn opt_vli_size(v: u64) -> nat {
    if v == LZMA_VLI_UNKNOWN {
        0
    } else {
        vli_size_spec(v)
    }
}

/// The Block Header size that `lzma_block_header_size` computes, or its
/// error code.
pub open spec fn header_size_result(b: lzma_block) -> Result<u32, u32> {
    if b.version > 1 {
        Err(LZMA_OPTIONS_ERROR)
    } else if b.compressed_size != LZMA_VLI_UNKNOWN && (b.compressed_size > LZMA_VLI_MAX
        || b.compressed_size == 0) {
        Err(LZMA_PROG_ERROR)
    } else if b.uncompressed_size != LZMA_VLI_UNKNOWN && b.uncompressed_size > LZMA_VLI_MAX {
        Err(LZMA_PROG_ERROR)
    } else if b.filters@[0].id == LZMA_VLI_UNKNOWN {
        Err(LZMA_PROG_ERROR)
    } else {
        match flags_size_from(b.filters@, 0) {
            Err(e) => Err(e),
            Ok(n) => Ok(ceil4(
                (6 + opt_vli_size(b.compressed_size) + opt_vli_size(b.uncompressed_size) + n) as int,
            ) as u32),
        }
    }
}

/// The filters before `i` are ones whose Filter Flags size is known.
pub open spec fn flags_prefix_ok(fs: Seq<Filter>, i: nat) -> bool {
    forall|k: int|
        0 <= k < i ==> #[trigger] fs[k].id != LZMA_VLI_UNKNOWN && filter_flags_size_spec(fs[k]) is Ok
}

/// Total size of the Filter Flags of the filters before `i`.
pub open spec fn flags_prefix_size(fs: Seq<Filter>, i: nat) -> nat
    decreases i,
{
    if i == 0 {
        0
    } else {
        flags_prefix_size(fs, (i - 1) as nat) + filter_flags_size_spec(fs[i - 1])->Ok_0
    }
}

proof fn lemma_flags_split(fs: Seq<Filter>, i: nat)
    requires
        fs.len() == 5,
        i <= 4,
        flags_prefix_ok(fs, i),
    ensures
        flags_size_from(fs, 0) == (match flags_size_from(fs, i) {
            Ok(m) => Ok(flags_prefix_size(fs, i) + m),
            Err(e) => Err::<nat, u32>(e),
        }),
    decreases i,
{
    if i > 0 {
        lemma_flags_split(fs, (i - 1) as nat);
        assert(fs[i - 1].id != LZMA_VLI_UNKNOWN);
    }
}

/// Computes the size of the Block Header of `block` and stores it in
/// `block.header_size`; see `header_size_result`. The block changes only on
/// `LZMA_OK`.
pub fn lzma_block_header_size(block: &mut lzma_block) -> (ret: u32)
    ensures
        match header_size_result(*old(block)) {
            Ok(hs) => ret == LZMA_OK && *final(block) == (lzma_block { header_size: hs, ..*old(block) }),
            Err(e) => ret == e && *final(block) == *old(block),
        },
{
    if block.version > 1 {
        return LZMA_OPTIONS_ERROR;
    }
    let mut size: u32 = 6;
    if block.compressed_size != LZMA_VLI_UNKNOWN {
        let add = lzma_vli_size(block.compressed_size);
        if add == 0 || block.compressed_size == 0 {
            return LZMA_PROG_ERROR;
        }
        size = size + add;
    }
    if block.uncompressed_size != LZMA_VLI_UNKNOWN {
        let add = lzma_vli_size(block.uncompressed_size);
        if add == 0 {
            return LZMA_PROG_ERROR;
        }
        size = size + add;
    }
    if block.filters[0].id == LZMA_VLI_UNKNOWN {
        return LZMA_PROG_ERROR;
    }
    let ghost fs = block.filters@;
    let ghost base = size;
    let mut i: usize = 0;
    while block.filters[i].id != LZMA_VLI_UNKNOWN
        invariant
            i < 5,
            fs == block.filters@,
            fs.len() == 5,
            base <= 24,
            flags_prefix_ok(fs, i as nat),
            flags_prefix_size(fs, i as nat) <= 15 * i,
            size == base + flags_prefix_size(fs, i as nat),
            fs[0].id != LZMA_VLI_UNKNOWN,
            *block == *old(block),
            header_size_result(*old(block)) == (match flags_size_from(fs, 0) {
                Err(e) => Err::<u32, u32>(e),
                Ok(n) => Ok(ceil4((base + n) as int) as u32),
            }),
        decreases 5 - i,
    {
        proof {
            lemma_flags_split(fs, i as nat);
        }
        if i == 4 {
            return LZMA_PROG_ERROR;
        }
        let mut add: u32 = 0;
        let ret = lzma_filter_flags_size(&mut add, &block.filters[i]);
        if ret != LZMA_OK {
            return ret;
        }
        proof {
            let f = fs[i as int];
            lemma_vli_size_bounds(f.id);
            let p = crate::filter_flags::props_size_spec(f);
            assert(p <= 5);
            assert(vli_encoding(p as u64).len() == 1) by {
                reveal_with_fuel(vli_encoding, 2);
            }
        }
        size = size + add;
        i = i + 1;
    }
    proof {
        lemma_flags_split(fs, i as nat);
        assert(flags_size_from(fs, i as nat) == Ok::<nat, u32>(0));
    }
    let s3: u32 = size + 3;
    let r = s3 & !3u32;
    proof {
        assert(s3 & !3u32 == s3 - s3 % 4) by (bit_vector);
    }
    block.header_size = r;
    LZMA_OK
}

/// The Filter Flags of filters `i`.. of `fs`, up to the end marker, written
/// with `room` bytes left; or the error code (`LZMA_PROG_ERROR` when they do
/// not fit or for a fifth filter).
pub open spec fn flags_encode_from(fs: Seq<Filter>, i: nat, room: int) -> Result<Seq<u8>, u32>
    decreases 5 - i,
{
    if i >= 4 || i + 1 >= fs.len() {
        Err(LZMA_PROG_ERROR)
    } else {
        match filter_flags_bytes(fs[i as int]) {
            Ok(b) => if b.len() > room {
                Err(LZMA_PROG_ERROR)
            } else if fs[i + 1int].id == LZMA_VLI_UNKNOWN {
                Ok(b)
            } else {
                match flags_encode_from(fs, i + 1, room - b.len()) {
                    Ok(r) => Ok(b + r),
                    Err(e) => Err(e),
                }
            },
            Err(e) => Err(
                if e == LZMA_OPTIONS_ERROR && vli_size_spec(fs[i as int].id) <= room {
                    LZMA_OPTIONS_ERROR
                } else {
                    LZMA_PROG_ERROR
                },
            ),
        }
    }
}

/// Number of filters before the end marker, counting from `i`.
pub open spec fn filters_from(fs: Seq<Filter>, i: nat) -> nat
    decreases 5 - i,
{
    if i >= 5 || i >= fs.len() || fs[i as int].id == LZMA_VLI_UNKNOWN {
        0
    } else {
        1 + filters_from(fs, i + 1)
    }
}

/// The optional size field for `v` (absent when unknown).
pub open spec fn opt_vli(v: u64) -> Seq<u8> {
    if v == LZMA_VLI_UNKNOWN {
        Seq::empty()
    } else {
        vli_encoding(v)
    }
}

/// The Block Flags byte.
pub open spec fn block_flags_byte(b: lzma_block, count: nat) -> u8 {
    ((if b.compressed_size != LZMA_VLI_UNKNOWN { 0x40int } else { 0 }) + (if b.uncompressed_size
        != LZMA_VLI_UNKNOWN {
        0x80int
    } else {
        0
    }) + count - 1) as u8
}

/// `n` zero bytes.
pub open spec fn zeros(n: int) -> Seq<u8> {
    Seq::new(n as nat, |k: int| 0u8)
}

/// The Block Header bytes that `lzma_block_header_encode` writes for `b`
/// into an output of `out_len` bytes, or its error code.
pub open spec fn header_encode_result(b: lzma_block, out_len: int) -> Result<Seq<u8>, u32> {
    let hs = b.header_size as int;
    let bl = hs - 4;
    let p_cs = opt_vli_size(b.compressed_size) as int;
    let p_us = opt_vli_size(b.uncompressed_size) as int;
    if unpadded_size_spec(b) == 0 || !(b.uncompressed_size <= LZMA_VLI_MAX || b.uncompressed_size
        == LZMA_VLI_UNKNOWN) {
        Err(LZMA_PROG_ERROR)
    } else if out_len < hs {
        Err(LZMA_PROG_ERROR)
    } else if 2 + p_cs > bl || 2 + p_cs + p_us > bl {
        Err(LZMA_PROG_ERROR)
    } else if b.filters@[0].id == LZMA_VLI_UNKNOWN {
        Err(LZMA_PROG_ERROR)
    } else {
        match flags_encode_from(b.filters@, 0, bl - 2 - p_cs - p_us) {
            Err(e) => Err(e),
            Ok(fb) => Ok(header_with(b, fb)),
        }
    }
}

/// The Block Header bytes of `b` with Filter Flags `fb`: Block Header Size,
/// Block Flags, the known sizes, the Filter Flags, the padding and the CRC32.
pub open spec fn header_with(b: lzma_block, fb: Seq<u8>) -> Seq<u8> {
    let bl = b.header_size - 4;
    let head = seq![(bl / 4) as u8, block_flags_byte(b, filters_from(b.filters@, 0))] + opt_vli(
        b.compressed_size,
    ) + opt_vli(b.uncompressed_size);
    let body = head + fb + zeros(bl - head.len() - fb.len());
    body + le32_bytes(crc32_of(body, 0))
}

fn zero_vec(n: usize) -> (v: Vec<u8>)
    ensures
        v@ == zeros(n as int),
{
    let mut v: Vec<u8> = Vec::new();
    let mut k: usize = 0;
    while k < n
        invariant
            k <= n,
            v@ == zeros(k as int),
        decreases n - k,
    {
        v.push(0);
        k = k + 1;
        assert(v@ =~= zeros(k as int));
    }
    v
}

/// Writes the Block Header of `block` (of `block.header_size` bytes) to the
/// start of `out`: the bytes of `header_encode_result` on `LZMA_OK`, `out`
/// unchanged otherwise.
#[verifier::rlimit(60)]
pub fn lzma_block_header_encode(block: &lzma_block, out: &mut [u8]) -> (ret: u32)
    ensures
        final(out)@.len() == old(out)@.len(),
        match header_encode_result(*block, old(out)@.len() as int) {
            Ok(h) => ret == LZMA_OK && final(out)@ == h + old(out)@.skip(h.len() as int),
            Err(e) => ret == e && final(out)@ == old(out)@,
        },
{
    let ghost o0 = out@;
    if lzma_block_unpadded_size(block) == 0 || !(block.uncompressed_size <= LZMA_VLI_MAX
        || block.uncompressed_size == LZMA_VLI_UNKNOWN) {
        return LZMA_PROG_ERROR;
    }
    let hs = block.header_size as usize;
    if out.len() < hs {
        return LZMA_PROG_ERROR;
    }
    let bl = hs - 4;
    let mut body = zero_vec(bl);
    body.set(0, (bl / 4) as u8);
    let mut pos: usize = 2;
    let ghost fs = block.filters@;
    let ghost p_cs = opt_vli_size(block.compressed_size) as int;
    let ghost p_us = opt_vli_size(block.uncompressed_size) as int;
    let ghost b0 = body@;
    assert(b0 =~= seq![(bl / 4) as u8, 0u8] + zeros(bl - 2));
    if block.compressed_size != LZMA_VLI_UNKNOWN {
        proof {
            lemma_vli_size_bounds(block.compressed_size);
        }
        let ret = lzma_vli_encode(block.compressed_size, None, body.as_mut_slice(), &mut pos);
        if ret != LZMA_OK {
            return ret;
        }
    }
    let ghost b1 = body@;
    assert(pos == 2 + p_cs);
    assert(b1 =~= seq![(bl / 4) as u8, 0u8] + opt_vli(block.compressed_size) + zeros(bl - 2 - p_cs));
    if block.uncompressed_size != LZMA_VLI_UNKNOWN {
        proof {
            lemma_vli_size_bounds(block.uncompressed_size);
        }
        let ret = lzma_vli_encode(block.uncompressed_size, None, body.as_mut_slice(), &mut pos);
        if ret != LZMA_OK {
            return ret;
        }
    }
    let ghost b2 = body@;
    let ghost pre_pos = pos as int;
    let ghost head0 = seq![(bl / 4) as u8, 0u8] + opt_vli(block.compressed_size) + opt_vli(
        block.uncompressed_size,
    );
    assert(pre_pos == 2 + p_cs + p_us);
    assert(b2 =~= head0 + zeros(bl - pre_pos));
    if block.filters[0].id == LZMA_VLI_UNKNOWN {
        return LZMA_PROG_ERROR;
    }
    let ghost room0 = bl - pre_pos;
    assert(header_encode_result(*block, o0.len() as int) == (match flags_encode_from(fs, 0, room0) {
        Err(e) => Err::<Seq<u8>, u32>(e),
        Ok(fb) => Ok(header_with(*block, fb)),
    }));
    let mut count: usize = 0;
    loop
        invariant_except_break
            count < 4,
            fs == block.filters@,
            fs.len() == 5,
            fs[count as int].id != LZMA_VLI_UNKNOWN,
            body@.len() == bl,
            2 <= pre_pos <= pos <= bl,
            head0.len() == pre_pos,
            body@ == head0 + body@.subrange(pre_pos, pos as int) + zeros(bl - pos),
            flags_encode_from(fs, 0, room0) == (match flags_encode_from(
                fs,
                count as nat,
                bl - pos,
            ) {
                Ok(r) => Ok(body@.subrange(pre_pos, pos as int) + r),
                Err(e) => Err::<Seq<u8>, u32>(e),
            }),
            filters_from(fs, 0) == count + filters_from(fs, count as nat),
            out@ == o0,
            header_encode_result(*block, o0.len() as int) == (match flags_encode_from(fs, 0, room0) {
                Err(e) => Err::<Seq<u8>, u32>(e),
                Ok(fb) => Ok(header_with(*block, fb)),
            }),
        ensures
            1 <= count <= 4,
            body@.len() == bl,
            2 <= pre_pos <= pos <= bl,
            head0.len() == pre_pos,
            body@ == head0 + body@.subrange(pre_pos, pos as int) + zeros(bl - pos),
            flags_encode_from(fs, 0, room0) == Ok::<Seq<u8>, u32>(body@.subrange(pre_pos, pos as int)),
            filters_from(fs, 0) == count,
            out@ == o0,
            header_encode_result(*block, o0.len() as int) == (match flags_encode_from(fs, 0, room0) {
                Err(e) => Err::<Seq<u8>, u32>(e),
                Ok(fb) => Ok(header_with(*block, fb)),
            }),
        decreases 4 - count,
    {
        let ghost bb = body@;
        let ghost pp = pos as int;
        let ghost done = bb.subrange(pre_pos, pp);
        let ret = lzma_filter_flags_encode(&block.filters[count], body.as_mut_slice(), &mut pos);
        if ret != LZMA_OK {
            return ret;
        }
        let ghost fb = filter_flags_bytes(fs[count as int])->Ok_0;
        proof {
            assert(body@ == bb.take(pp) + fb + bb.skip(pp + fb.len()));
            assert(pos == pp + fb.len());
            assert(pos <= bl);
            assert(bb.take(pp) =~= head0 + done);
            assert(filter_flags_bytes(fs[count as int]) is Ok);
            let t = bb.take(pp);
            let rest = bb.skip(pp + fb.len());
            assert(body@.subrange(pre_pos, pp) =~= t.subrange(pre_pos, pp));
            assert(t.subrange(pre_pos, pp) =~= done);
            assert(body@.subrange(pp, pos as int) =~= fb);
            assert(body@.subrange(pre_pos, pos as int) =~= done + fb);
            assert(body@ =~= head0 + body@.subrange(pre_pos, pos as int) + zeros(bl - pos));
        }
        count = count + 1;
        proof {
            assert(filters_from(fs, (count - 1) as nat) == 1 + filters_from(fs, count as nat));
        }
        if block.filters[count].id == LZMA_VLI_UNKNOWN {
            proof {
                assert(filters_from(fs, count as nat) == 0);
            }
            break;
        }
        if count == 4 {
            return LZMA_PROG_ERROR;
        }
        proof {
            assert forall|r: Seq<u8>| #![auto] done + (fb + r) =~= body@.subrange(pre_pos, pos as int) + r by {}
        }
    }
    let ghost fbs = body@.subrange(pre_pos, pos as int);
    let flags: u8 = ((if block.compressed_size != LZMA_VLI_UNKNOWN { 0x40u8 } else { 0u8 }) + (
    if block.uncompressed_size != LZMA_VLI_UNKNOWN {
        0x80u8
    } else {
        0u8
    })) + (count - 1) as u8;
    body.set(1, flags);
    let ghost head = seq![(bl / 4) as u8, block_flags_byte(*block, filters_from(fs, 0))] + opt_vli(
        block.compressed_size,
    ) + opt_vli(block.uncompressed_size);
    assert(body@ =~= head + fbs + zeros(bl - head.len() - fbs.len()));
    let crc = crc32(body.as_slice(), 0);
    let c = write32le(crc);
    let mut k: usize = 0;
    while k < bl
        invariant
            k <= bl,
            bl + 4 == hs,
            hs <= out@.len(),
            out@.len() == o0.len(),
            body@.len() == bl,
            forall|j: int| 0 <= j < k ==> #[trigger] out@[j] == body@[j],
            forall|j: int| k <= j < o0.len() ==> #[trigger] out@[j] == o0[j],
        decreases bl - k,
    {
        out[k] = body[k];
        k = k + 1;
    }
    out[bl] = c[0];
    out[bl + 1] = c[1];
    out[bl + 2] = c[2];
    out[bl + 3] = c[3];
    proof {
        let h = header_with(*block, fbs);
        assert(h =~= body@ + le32_bytes(crc));
        assert(out@ =~= h + o0.skip(h.len() as int));
    }
    LZMA_OK
}

/// Reading `count` Filter Flags from `body` at `pos`: the filters and the
/// position after them, or the error code.
pub open spec fn filters_parse(body: Seq<u8>, pos: int, count: nat) -> Result<(Seq<Filter>, int), u32>
    decreases count,
{
    if count == 0 {
        Ok((Seq::empty(), pos))
    } else {
        let (r, f, p) = filter_flags_parse(body, pos);
        if r != LZMA_OK {
            Err(r)
        } else {
            match filters_parse(body, p, (count - 1) as nat) {
                Ok((fs, q)) => Ok((seq![f] + fs, q)),
                Err(e) => Err(e),
            }
        }
    }
}

/// Reading Filter Flags fails only with an error code.
proof fn lemma_filters_parse_err(body: Seq<u8>, pos: int, count: nat)
    ensures
        filters_parse(body, pos, count) matches Err(e) ==> e != LZMA_OK,
    decreases count,
{
    if count > 0 {
        let (r, f, p) = filter_flags_parse(body, pos);
        lemma_filters_parse_err(body, p, (count - 1) as nat);
    }
}

/// Decoding a Block Header fails only with an error code.
pub proof fn lemma_header_decode_err(b: lzma_block, input: Seq<u8>)
    ensures
        header_decode_result(b, input) matches Err(e) ==> e != LZMA_OK,
{
    let hs = b.header_size as int;
    if input.len() >= hs && hs >= 4 {
        let body = input.take(hs - 4);
        let flags = input[1];
        let p1 = if flags & 0x40 != 0 { read_vli(body, 2)->Some_0.1 } else { 2 };
        let p2 = if flags & 0x80 != 0 { read_vli(body, p1)->Some_0.1 } else { p1 };
        lemma_filters_parse_err(body, p2, ((flags & 3) + 1) as nat);
    }
}

proof fn lemma_flags_size_err(fs: Seq<Filter>, i: nat)
    ensures
        flags_size_from(fs, i) matches Err(e) ==> e != LZMA_OK,
    decreases 5 - i,
{
    if !(i >= 5 || i >= fs.len() || fs[i as int].id == LZMA_VLI_UNKNOWN) && i != LZMA_FILTERS_MAX {
        lemma_flags_size_err(fs, i + 1);
    }
}

/// Computing a Block Header size fails only with an error code.
pub proof fn lemma_header_size_err(b: lzma_block)
    ensures
        header_size_result(b) matches Err(e) ==> e != LZMA_OK,
{
    lemma_flags_size_err(b.filters@, 0);
}

proof fn lemma_flags_encode_err(fs: Seq<Filter>, i: nat, room: int)
    ensures
        flags_encode_from(fs, i, room) matches Err(e) ==> e != LZMA_OK,
    decreases 5 - i,
{
    if !(i >= 4 || i + 1 >= fs.len()) {
        match filter_flags_bytes(fs[i as int]) {
            Ok(b) => {
                lemma_flags_encode_err(fs, i + 1, room - b.len());
            },
            Err(e) => {},
        }
    }
}

/// Encoding a Block Header fails only with an error code.
pub proof fn lemma_header_encode_err(b: lzma_block, out_len: int)
    ensures
        header_encode_result(b, out_len) matches Err(e) ==> e != LZMA_OK,
{
    let hs = b.header_size as int;
    let bl = hs - 4;
    lemma_flags_encode_err(
        b.filters@,
        0,
        bl - 2 - opt_vli_size(b.compressed_size) - opt_vli_size(b.uncompressed_size),
    );
}

/// A decoded Block Header keeps the check the block was given: the header
/// does not hold it.
pub proof fn lemma_header_decode_keeps_check(b: lzma_block, input: Seq<u8>)
    ensures
        header_decode_result(b, input) matches Ok(d) ==> d.check == b.check,
{
}

/// A chain of five slots holding `fs` and end markers after them.
pub open spec fn padded_chain(fs: Seq<Filter>) -> Seq<Filter> {
    fs + Seq::new((5 - fs.len()) as nat, |k: int| end_filter())
}

/// `b` as the decoder leaves it whatever the input: no filters, version at
/// most 1, checks verified.
pub open spec fn decode_start(b: lzma_block) -> lzma_block {
    lzma_block {
        version: if b.version > 1 {
            1
        } else {
            b.version
        },
        ignore_check: false,
        ..b
    }
}

/// The size fields and filters that the header body `body` gives, with
/// Block Flags `flags`, for a block `b1`; or the error code.
pub open spec fn header_fields_parse(b1: lzma_block, body: Seq<u8>, flags: u8) -> Result<lzma_block, u32> {
    let r1: Result<(u64, int), u32> = if flags & 0x40 != 0 {
        match read_vli(body, 2) {
            None => Err(LZMA_DATA_ERROR),
            Some((v, p)) => if unpadded_size_spec(lzma_block { compressed_size: v, ..b1 }) == 0 {
                Err(LZMA_DATA_ERROR)
            } else {
                Ok((v, p))
            },
        }
    } else {
        Ok((LZMA_VLI_UNKNOWN, 2))
    };
    match r1 {
        Err(e) => Err(e),
        Ok((cs, p1)) => {
            let r2: Result<(u64, int), u32> = if flags & 0x80 != 0 {
                match read_vli(body, p1) {
                    None => Err(LZMA_DATA_ERROR),
                    Some((v, p)) => Ok((v, p)),
                }
            } else {
                Ok((LZMA_VLI_UNKNOWN, p1))
            };
            match r2 {
                Err(e) => Err(e),
                Ok((us, p2)) => match filters_parse(body, p2, ((flags & 3) + 1) as nat) {
                    Err(e) => Err(e),
                    Ok((fs, p3)) => if exists|k: int| p3 <= k < body.len() && #[trigger] body[k] != 0 {
                        Err(LZMA_OPTIONS_ERROR)
                    } else {
                        Ok(lzma_block { compressed_size: cs, uncompressed_size: us, ..b1 })
                    },
                },
            }
        },
    }
}

/// The filters that the header body gives (meaningful when the fields
/// parse).
pub open spec fn header_filters_parse(b1: lzma_block, body: Seq<u8>, flags: u8) -> Seq<Filter> {
    let p1 = if flags & 0x40 != 0 { read_vli(body, 2)->Some_0.1 } else { 2 };
    let p2 = if flags & 0x80 != 0 { read_vli(body, p1)->Some_0.1 } else { p1 };
    filters_parse(body, p2, ((flags & 3) + 1) as nat)->Ok_0.0
}

/// What decoding the Block Header `input` gives for `b`: the block with the
/// header's sizes (its filters being `header_filters_parse`), or the error
/// code.
pub open spec fn header_decode_result(b: lzma_block, input: Seq<u8>) -> Result<lzma_block, u32> {
    let hs = b.header_size as int;
    if input.len() == 0 || (input[0] + 1) * 4 != hs || b.check > LZMA_CHECK_ID_MAX {
        Err(LZMA_PROG_ERROR)
    } else if input.len() < hs {
        Err(LZMA_PROG_ERROR)
    } else if crc32_of(input.take(hs - 4), 0) != le32_value(
        input[hs - 4],
        input[hs - 3],
        input[hs - 2],
        input[hs - 1],
    ) {
        Err(LZMA_DATA_ERROR)
    } else if input[1] & 0x3c != 0 {
        Err(LZMA_OPTIONS_ERROR)
    } else {
        header_fields_parse(decode_start(b), input.take(hs - 4), input[1])
    }
}

/// Decodes the Block Header at the start of `input` into `block`, whose
/// `header_size` and `check` are already known: on `LZMA_OK` the block of
/// `header_decode_result` with the filters read; on an error, no filters.
#[verifier::rlimit(60)]
pub fn lzma_block_header_decode(block: &mut lzma_block, input: &[u8]) -> (ret: u32)
    ensures
        match header_decode_result(*old(block), input@) {
            Ok(b) => {
                let hs = old(block).header_size as int;
                &&& ret == LZMA_OK
                &&& *final(block) == (lzma_block { filters: final(block).filters, ..b })
                &&& final(block).filters@ == padded_chain(
                    header_filters_parse(decode_start(*old(block)), input@.take(hs - 4), input@[1]),
                )
            },
            Err(e) => ret == e && final(block).filters@ == padded_chain(Seq::empty()),
        },
{
    let end = Filter { id: LZMA_VLI_UNKNOWN, options: FilterOptions::Absent };
    block.filters = [end, end, end, end, end];
    assert(block.filters@ =~= padded_chain(Seq::empty()));
    if block.version > 1 {
        block.version = 1;
    }
    block.ignore_check = false;
    let ghost b1 = *block;
    if input.len() == 0 {
        return LZMA_PROG_ERROR;
    }
    if (input[0] as u32 + 1) * 4 != block.header_size || block.check > LZMA_CHECK_ID_MAX {
        return LZMA_PROG_ERROR;
    }
    let hs = block.header_size as usize;
    if input.len() < hs {
        return LZMA_PROG_ERROR;
    }
    let body = vstd::slice::slice_subrange(input, 0, hs - 4);
    assert(body@ =~= input@.take(hs - 4));
    let stored = read32le(input[hs - 4], input[hs - 3], input[hs - 2], input[hs - 1]);
    if crc32(body, 0) != stored {
        return LZMA_DATA_ERROR;
    }
    let flags = input[1];
    if flags & 0x3c != 0 {
        return LZMA_OPTIONS_ERROR;
    }
    let mut pos: usize = 2;
    let mut cs: u64 = LZMA_VLI_UNKNOWN;
    if flags & 0x40 != 0 {
        let mut v: u64 = 0;
        let ret = lzma_vli_decode(&mut v, None, body, &mut pos);
        if ret != LZMA_OK {
            return ret;
        }
        let probe = lzma_block { compressed_size: v, ..*block };
        if lzma_block_unpadded_size(&probe) == 0 {
            return LZMA_DATA_ERROR;
        }
        cs = v;
    }
    let ghost p1 = pos as int;
    let mut us: u64 = LZMA_VLI_UNKNOWN;
    if flags & 0x80 != 0 {
        let mut v: u64 = 0;
        let ret = lzma_vli_decode(&mut v, None, body, &mut pos);
        if ret != LZMA_OK {
            return ret;
        }
        us = v;
    }
    let ghost p2 = pos as int;
    let low: u8 = flags & 3;
    assert(low <= 3) by (bit_vector)
        requires
            low == flags & 3,
    ;
    let count: usize = low as usize + 1;
    let ghost total = filters_parse(body@, p2, count as nat);
    assert(header_decode_result(*old(block), input@) == (match total {
        Err(e) => Err::<lzma_block, u32>(e),
        Ok((fs, p3)) => if exists|k: int| p3 <= k < body@.len() && #[trigger] body@[k] != 0 {
            Err(LZMA_OPTIONS_ERROR)
        } else {
            Ok(lzma_block { compressed_size: cs, uncompressed_size: us, ..decode_start(*old(block)) })
        },
    }));
    let mut chain = [end, end, end, end, end];
    let mut i: usize = 0;
    while i < count
        invariant
            i <= count <= 4,
            chain@ == padded_chain(chain@.take(i as int)),
            total == (match filters_parse(body@, pos as int, (count - i) as nat) {
                Ok((fs, q)) => Ok((chain@.take(i as int) + fs, q)),
                Err(e) => Err::<(Seq<Filter>, int), u32>(e),
            }),
            block.filters@ == padded_chain(Seq::empty()),
            header_decode_result(*old(block), input@) == (match total {
                Err(e) => Err::<lzma_block, u32>(e),
                Ok((fs, p3)) => if exists|k: int| p3 <= k < body@.len() && #[trigger] body@[k] != 0 {
                    Err(LZMA_OPTIONS_ERROR)
                } else {
                    Ok(lzma_block { compressed_size: cs, uncompressed_size: us, ..decode_start(*old(block)) })
                },
            }),
        decreases count - i,
    {
        let mut f = end;
        let ghost pp = pos as int;
        let ret = lzma_filter_flags_decode(&mut f, body, &mut pos);
        if ret != LZMA_OK {
            return ret;
        }
        let ghost old_chain = chain@;
        chain[i] = f;
        proof {
            assert(chain@.take(i as int) =~= old_chain.take(i as int));
            assert(chain@.take(i + 1) =~= old_chain.take(i as int).push(f));
            assert(chain@ =~= padded_chain(chain@.take(i + 1)));
            assert forall|fs: Seq<Filter>| #![auto] old_chain.take(i as int) + (seq![f] + fs)
                =~= chain@.take(i + 1) + fs by {}
        }
        i = i + 1;
    }
    let ghost p3 = pos as int;
    assert(total == Ok::<(Seq<Filter>, int), u32>((chain@.take(count as int), p3)));
    let blen = body.len();
    let mut k = pos;
    while k < blen
        invariant
            blen == body@.len(),
            forall|j: int| p3 <= j < k && j < blen ==> #[trigger] body@[j] == 0,
            p3 <= k,
            block.filters@ == padded_chain(Seq::empty()),
            total == Ok::<(Seq<Filter>, int), u32>((chain@.take(count as int), p3)),
            header_decode_result(*old(block), input@) == (match total {
                Err(e) => Err::<lzma_block, u32>(e),
                Ok((fs, p3)) => if exists|k: int| p3 <= k < body@.len() && #[trigger] body@[k] != 0 {
                    Err(LZMA_OPTIONS_ERROR)
                } else {
                    Ok(lzma_block { compressed_size: cs, uncompressed_size: us, ..decode_start(*old(block)) })
                },
            }),
        decreases blen - k,
    {
        if body[k] != 0 {
            return LZMA_OPTIONS_ERROR;
        }
        k = k + 1;
    }
    block.compressed_size = cs;
    block.uncompressed_size = us;
    block.filters = chain;
    proof {
        assert(chain@.take(count as int) =~= total->Ok_0.0);
    }
    LZMA_OK
}

/// Filters `i`.. of `fs`, `n` of them, as they come back once their Filter
/// Flags are written and read.
pub open spec fn chain_canonical_from(fs: Seq<Filter>, i: nat, n: nat) -> Seq<Filter> {
    Seq::new(n, |k: int| Filter { id: fs[i + k].id, options: props_canonical(fs[i + k]) })
}

/// The filters of `fs` before the end marker as they come back once their
/// Filter Flags are written and read: each with its options as
/// `props_canonical` describes them.
pub open spec fn chain_canonical(fs: Seq<Filter>) -> Seq<Filter> {
    chain_canonical_from(fs, 0, filters_from(fs, 0))
}

/// Reading back the Filter Flags written for filters `i`.. gives them as
/// `chain_canonical_from` describes them and stops right after them.
proof fn lemma_flags_parse_back(fs: Seq<Filter>, i: nat, room: int, pre: Seq<u8>, rest: Seq<u8>)
    requires
        fs.len() == 5,
        flags_encode_from(fs, i, room) is Ok,
    ensures
        i < 4,
        ({
            let e = flags_encode_from(fs, i, room)->Ok_0;
            filters_parse(pre + e + rest, pre.len() as int, filters_from(fs, i)) == Ok::<
                (Seq<Filter>, int),
                u32,
            >((chain_canonical_from(fs, i, filters_from(fs, i)), (pre.len() + e.len()) as int))
        }),
    decreases 5 - i,
{
    let f = fs[i as int];
    let b = filter_flags_bytes(f)->Ok_0;
    let e = flags_encode_from(fs, i, room)->Ok_0;
    assert(f.id != LZMA_VLI_UNKNOWN);
    if fs[i + 1int].id == LZMA_VLI_UNKNOWN {
        assert(e == b);
        law_filter_flags_roundtrip(f, pre, rest);
        assert(filters_from(fs, i + 1) == 0);
        assert(filters_from(fs, i) == 1);
        let s2 = pre + e + rest;
        let end = (pre.len() + b.len()) as int;
        assert(filters_parse(s2, end, 0) == Ok::<(Seq<Filter>, int), u32>((Seq::empty(), end)));
        assert(chain_canonical_from(fs, i, 1) =~= seq![Filter { id: f.id, options: props_canonical(f) }] + Seq::<Filter>::empty());
    } else {
        let r = flags_encode_from(fs, i + 1, room - b.len())->Ok_0;
        assert(e == b + r);
        law_filter_flags_roundtrip(f, pre, r + rest);
        assert(pre + e + rest =~= pre + b + (r + rest));
        lemma_flags_parse_back(fs, i + 1, room - b.len(), pre + b, rest);
        assert((pre + b) + r + rest =~= pre + e + rest);
        let n = filters_from(fs, i + 1);
        assert(filters_from(fs, i) == 1 + n);
        assert(chain_canonical_from(fs, i, 1 + n) =~= seq![Filter { id: f.id, options: props_canonical(f) }]
            + chain_canonical_from(fs, i + 1, n));
    }
}

proof fn lemma_flags_encode_bounds(fs: Seq<Filter>, i: nat, room: int)
    requires
        fs.len() == 5,
        flags_encode_from(fs, i, room) is Ok,
    ensures
        flags_encode_from(fs, i, room)->Ok_0.len() <= room,
        1 <= filters_from(fs, i) <= 4 - i,
    decreases 5 - i,
{
    let f = fs[i as int];
    let b = filter_flags_bytes(f)->Ok_0;
    assert(f.id != LZMA_VLI_UNKNOWN);
    if fs[i + 1int].id != LZMA_VLI_UNKNOWN {
        lemma_flags_encode_bounds(fs, i + 1, room - b.len());
    }
}

/// The Block Flags byte of a chain of one to four filters: no reserved bits,
/// the two size bits as the sizes are known, and the count of filters.
proof fn lemma_flags_byte(b: lzma_block, count: nat)
    requires
        1 <= count <= 4,
    ensures
        block_flags_byte(b, count) & 0x3c == 0,
        (block_flags_byte(b, count) & 0x40 != 0) == (b.compressed_size != LZMA_VLI_UNKNOWN),
        (block_flags_byte(b, count) & 0x80 != 0) == (b.uncompressed_size != LZMA_VLI_UNKNOWN),
        (block_flags_byte(b, count) & 3) + 1 == count,
{
    let flags = block_flags_byte(b, count);
    let c = (count - 1) as u8;
    let hi: u8 = ((if b.compressed_size != LZMA_VLI_UNKNOWN { 0x40int } else { 0 }) + (
    if b.uncompressed_size != LZMA_VLI_UNKNOWN {
        0x80int
    } else {
        0
    })) as u8;
    assert(flags == (hi + c) as u8);
    assert(c <= 3 && (hi == 0 || hi == 0x40 || hi == 0x80 || hi == 0xc0) ==> {
        &&& ((hi + c) as u8) & 0x3c == 0
        &&& (((hi + c) as u8) & 0x40 != 0) == (hi & 0x40 != 0)
        &&& (((hi + c) as u8) & 0x80 != 0) == (hi & 0x80 != 0)
        &&& ((hi + c) as u8) & 3 == c
    }) by (bit_vector);
    assert(0x40u8 & 0x40 != 0 && 0xc0u8 & 0x40 != 0 && 0u8 & 0x40 == 0 && 0x80u8 & 0x40 == 0)
        by (bit_vector);
    assert(0x80u8 & 0x80 != 0 && 0xc0u8 & 0x80 != 0 && 0u8 & 0x80 == 0 && 0x40u8 & 0x80 == 0)
        by (bit_vector);
}

/// The Block Header of `b` before its CRC32, with Filter Flags `fb`.
pub open spec fn header_body(b: lzma_block, fb: Seq<u8>) -> Seq<u8> {
    let bl = b.header_size - 4;
    let head = seq![(bl / 4) as u8, block_flags_byte(b, filters_from(b.filters@, 0))] + opt_vli(
        b.compressed_size,
    ) + opt_vli(b.uncompressed_size);
    head + fb + zeros(bl - head.len() - fb.len())
}

/// The checks of the decoder before the fields: the header size byte, the
/// CRC32 and the reserved flag bits all agree with what was written.
pub(crate) proof fn lemma_header_frame(b: lzma_block, out_len: int)
    requires
        header_encode_result(b, out_len) is Ok,
    ensures
        ({
            let h = header_encode_result(b, out_len)->Ok_0;
            let hs = b.header_size as int;
            let fb = flags_encode_from(
                b.filters@,
                0,
                hs - 4 - 2 - opt_vli_size(b.compressed_size) - opt_vli_size(b.uncompressed_size),
            )->Ok_0;
            &&& h.take(hs - 4) == header_body(b, fb)
            &&& h[1] == block_flags_byte(b, filters_from(b.filters@, 0))
            &&& header_decode_result(b, h) == header_fields_parse(decode_start(b), h.take(hs - 4), h[1])
            &&& header_body(b, fb).len() == hs - 4
            &&& 1 <= filters_from(b.filters@, 0) <= 4
            &&& fb.len() <= hs - 4 - 2 - opt_vli_size(b.compressed_size) - opt_vli_size(b.uncompressed_size)
        }),
{
    let fs = b.filters@;
    let hs = b.header_size as int;
    let bl = hs - 4;
    let cs = b.compressed_size;
    let us = b.uncompressed_size;
    let room = bl - 2 - opt_vli_size(cs) - opt_vli_size(us);
    let fb = flags_encode_from(fs, 0, room)->Ok_0;
    lemma_flags_encode_bounds(fs, 0, room);
    let count = filters_from(fs, 0);
    let flags = block_flags_byte(b, count);
    if cs != LZMA_VLI_UNKNOWN {
        lemma_vli_size_bounds(cs);
    }
    if us != LZMA_VLI_UNKNOWN {
        lemma_vli_size_bounds(us);
    }
    assert(opt_vli(cs).len() == opt_vli_size(cs));
    assert(opt_vli(us).len() == opt_vli_size(us));
    let body = header_body(b, fb);
    let h = header_encode_result(b, out_len)->Ok_0;
    assert(h == body + le32_bytes(crc32_of(body, 0)));
    assert(body.len() == bl);
    assert(h.take(hs - 4) =~= body);
    lemma_le32_roundtrip(crc32_of(body, 0));
    assert(h[hs - 4] == le32_bytes(crc32_of(body, 0))[0]);
    assert(h[hs - 3] == le32_bytes(crc32_of(body, 0))[1]);
    assert(h[hs - 2] == le32_bytes(crc32_of(body, 0))[2]);
    assert(h[hs - 1] == le32_bytes(crc32_of(body, 0))[3]);
    assert(h[0] == (bl / 4) as u8);
    assert(((bl / 4) as u8 + 1) * 4 == hs);
    assert(h[1] == flags);
    lemma_flags_byte(b, count);
}

/// The size fields and Filter Flags of a header body read back as written.
#[verifier::rlimit(100)]
#[verifier::spinoff_prover]
proof fn lemma_header_fields_back(b: lzma_block, fb: Seq<u8>, room: int)
    requires
        unpadded_size_spec(b) != 0,
        b.uncompressed_size <= LZMA_VLI_MAX || b.uncompressed_size == LZMA_VLI_UNKNOWN,
        room == b.header_size - 4 - 2 - opt_vli_size(b.compressed_size) - opt_vli_size(
            b.uncompressed_size,
        ),
        flags_encode_from(b.filters@, 0, room) == Ok::<Seq<u8>, u32>(fb),
        fb.len() <= room,
        1 <= filters_from(b.filters@, 0) <= 4,
    ensures
        ({
            let body = header_body(b, fb);
            let flags = block_flags_byte(b, filters_from(b.filters@, 0));
            &&& header_fields_parse(decode_start(b), body, flags) == Ok::<lzma_block, u32>(decode_start(b))
            &&& header_filters_parse(decode_start(b), body, flags) == chain_canonical(b.filters@)
        }),
{
    let fs = b.filters@;
    let cs = b.compressed_size;
    let us = b.uncompressed_size;
    let count = filters_from(fs, 0);
    let flags = block_flags_byte(b, count);
    lemma_flags_byte(b, count);
    if cs != LZMA_VLI_UNKNOWN {
        lemma_vli_size_bounds(cs);
    }
    if us != LZMA_VLI_UNKNOWN {
        lemma_vli_size_bounds(us);
    }
    let bl = b.header_size - 4;
    let head = seq![(bl / 4) as u8, flags] + opt_vli(cs) + opt_vli(us);
    let z = zeros(bl - head.len() - fb.len());
    let body = head + fb + z;
    assert(body == header_body(b, fb));
    let b1 = decode_start(b);
    let after_cs = 2 + opt_vli_size(cs);
    if cs != LZMA_VLI_UNKNOWN {
        assert(body.skip(2) =~= vli_encoding(cs) + (opt_vli(us) + fb + z));
        law_vli_roundtrip(cs, opt_vli(us) + fb + z);
        assert(read_vli(body, 2) == Some((cs, after_cs as int)));
        assert(lzma_block { compressed_size: cs, ..b1 } == lzma_block { ignore_check: false, ..b });
    }
    let after_us = after_cs + opt_vli_size(us);
    if us != LZMA_VLI_UNKNOWN {
        assert(body.skip(after_cs as int) =~= vli_encoding(us) + (fb + z));
        law_vli_roundtrip(us, fb + z);
        assert(read_vli(body, after_cs as int) == Some((us, after_us as int)));
    }
    assert(head.len() == after_us);
    lemma_flags_parse_back(fs, 0, room, head, z);
    let p3 = after_us + fb.len();
    assert forall|k: int| p3 <= k < body.len() implies body[k] == 0 by {
        assert(body[k] == z[k - p3]);
    }
    assert(lzma_block { compressed_size: cs, uncompressed_size: us, ..b1 } == b1);
}

/// Reading back a Block Header that `lzma_block_header_encode` wrote for a
/// block gives the block again (as the decoder leaves it: version at most 1,
/// checks verified) and its filter chain with each filter's options as
/// `props_canonical` describes them.
pub proof fn law_block_header_roundtrip(b: lzma_block, out_len: int)
    requires
        header_encode_result(b, out_len) is Ok,
    ensures
        ({
            let h = header_encode_result(b, out_len)->Ok_0;
            let hs = b.header_size as int;
            &&& header_decode_result(b, h) == Ok::<lzma_block, u32>(decode_start(b))
            &&& header_filters_parse(decode_start(b), h.take(hs - 4), h[1]) == chain_canonical(
                b.filters@,
            )
        }),
{
    let hs = b.header_size as int;
    let room = hs - 4 - 2 - opt_vli_size(b.compressed_size) - opt_vli_size(b.uncompressed_size);
    let fb = flags_encode_from(b.filters@, 0, room)->Ok_0;
    lemma_header_frame(b, out_len);
    lemma_header_fields_back(b, fb, room);
}

/// Decoding a Block Header into two blocks that share the header size and
/// the check, both of a version at most 1, succeeds for both or neither,
/// with the same sizes read and the same filters.
pub proof fn lemma_header_decode_other(b: lzma_block, b2: lzma_block, x: Seq<u8>)
    requires
        b.header_size == b2.header_size,
        b.check == b2.check,
        b.version <= 1,
        b2.version <= 1,
        header_decode_result(b, x) is Ok,
    ensures
        header_decode_result(b2, x) is Ok,
        header_decode_result(b2, x)->Ok_0 == (lzma_block {
            compressed_size: header_decode_result(b, x)->Ok_0.compressed_size,
            uncompressed_size: header_decode_result(b, x)->Ok_0.uncompressed_size,
            ..decode_start(b2)
        }),
        header_decode_result(b, x)->Ok_0 == (lzma_block {
            compressed_size: header_decode_result(b, x)->Ok_0.compressed_size,
            uncompressed_size: header_decode_result(b, x)->Ok_0.uncompressed_size,
            ..decode_start(b)
        }),
{
    let hs = b.header_size as int;
    let body = x.take(hs - 4);
    if read_vli(body, 2) is Some {
        let v = read_vli(body, 2)->Some_0.0;
        let c1 = lzma_block { compressed_size: v, ..decode_start(b) };
        let c2 = lzma_block { compressed_size: v, ..decode_start(b2) };
        assert(unpadded_size_spec(c1) == unpadded_size_spec(c2));
    }
}

/// Decoding a Block Header reads only its own bytes.
pub proof fn lemma_header_decode_prefix(b: lzma_block, h: Seq<u8>, rest: Seq<u8>)
    requires
        h.len() == b.header_size,
        b.header_size >= 8,
    ensures
        header_decode_result(b, h + rest) == header_decode_result(b, h),
{
    let x = h + rest;
    let hs = b.header_size as int;
    assert(x[0] == h[0] && x[1] == h[1]);
    assert(x[hs - 4] == h[hs - 4] && x[hs - 3] == h[hs - 3] && x[hs - 2] == h[hs - 2] && x[hs
        - 1] == h[hs - 1]);
    assert(x.take(hs - 4) =~= h.take(hs - 4));
}

} // verus!
