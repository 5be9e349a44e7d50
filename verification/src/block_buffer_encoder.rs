//! Encoding a whole buffer as one Block whose data is stored in uncompressed
//! LZMA2 chunks.
use vstd::prelude::*;
use crate::block::{
    lzma2_bound, lzma2_bound_spec, lzma_block, LZMA2_CHUNK_MAX, LZMA2_HEADER_UNCOMPRESSED,
};
use crate::block_header::{
    end_filter, header_encode_result, header_size_result, lzma_block_header_encode,
    lzma_block_header_size, zeros,
};
use crate::check::{
    check_size_spec, check_supported_spec, check_value, lzma_check_finish, lzma_check_init,
    lzma_check_is_supported, lzma_check_size, lzma_check_update,
};
use crate::filter::{Filter, FilterOptions, LzmaRaw, LZMA_DICT_SIZE_MIN};
use crate::sha256::sha256_len_limit;
use crate::types::{
    ceil4, LZMA_BUF_ERROR, LZMA_CHECK_ID_MAX, LZMA_DATA_ERROR, LZMA_FILTER_LZMA2, LZMA_OK,
    LZMA_OPTIONS_ERROR, LZMA_PROG_ERROR, LZMA_UNSUPPORTED_CHECK, LZMA_VLI_UNKNOWN,
};

verus! {

/// Size of the next stored chunk of `len` bytes still to store: at most
/// `LZMA2_CHUNK_MAX`.
pub open spec fn chunk_len(len: nat) -> nat {
    if len < LZMA2_CHUNK_MAX {
        len
    } else {
        LZMA2_CHUNK_MAX as nat
    }
}

/// The header of an uncompressed LZMA2 chunk of `n` bytes: the control byte
/// (1 when it resets the dictionary, 2 otherwise) and `n - 1` in two
/// big-endian bytes.
pub open spec fn stored_chunk_header(first: bool, n: nat) -> Seq<u8> {
    seq![if first { 1u8 } else { 2u8 }, ((n - 1) / 256) as u8, ((n - 1) % 256) as u8]
}

/// The uncompressed LZMA2 chunks that store `data`, the first of them
/// resetting the dictionary when `first` holds.
pub open spec fn stored_chunks(data: Seq<u8>, first: bool) -> Seq<u8>
    decreases data.len(),
{
    if data.len() == 0 {
        Seq::empty()
    } else {
        let n = chunk_len(data.len());
        stored_chunk_header(first, n) + data.take(n as int) + stored_chunks(
            data.skip(n as int),
            false,
        )
    }
}

/// LZMA2 data that stores `data` uncompressed: its chunks and the end
/// marker.
pub open spec fn lzma2_stored(data: Seq<u8>) -> Seq<u8> {
    stored_chunks(data, true).push(0u8)
}

/// The chunks add three bytes of header to every started 64 KiB of data.
pub proof fn lemma_stored_chunks_len(data: Seq<u8>, first: bool)
    ensures
        stored_chunks(data, first).len() == data.len() + (data.len() + LZMA2_CHUNK_MAX - 1)
            / (LZMA2_CHUNK_MAX as int) * LZMA2_HEADER_UNCOMPRESSED,
    decreases data.len(),
{
    if data.len() > 0 {
        let n = chunk_len(data.len());
        lemma_stored_chunks_len(data.skip(n as int), false);
        let l = data.len() as int;
        assert((l + 65535) / 65536 == 1 + (l - n + 65535) / 65536);
    }
}

/// Stored LZMA2 data is exactly as long as the bound on the LZMA2 size.
pub proof fn lemma_lzma2_stored_len(data: Seq<u8>)
    requires
        data.len() <= u64::MAX,
        lzma2_bound_spec(data.len() as u64) != 0,
    ensures
        lzma2_stored(data).len() == lzma2_bound_spec(data.len() as u64),
{
    lemma_stored_chunks_len(data, true);
}

} // verus!

verus! {

/// The LZMA2 filter with the smallest dictionary, which the header of a
/// Block whose data is stored names.
pub open spec fn stored_lzma2() -> Filter {
    Filter {
        id: LZMA_FILTER_LZMA2,
        options: FilterOptions::Lzma(
            LzmaRaw {
                dict_size: LZMA_DICT_SIZE_MIN,
                lc: 0,
                lp: 0,
                pb: 0,
                mode: 0,
                nice_len: 0,
                mf: 0,
                depth: 0,
            },
        ),
    }
}

/// `b` with the filter chain of a Block whose data is stored.
pub open spec fn stored_block(b: lzma_block) -> lzma_block {
    lzma_block {
        filters: [stored_lzma2(), end_filter(), end_filter(), end_filter(), end_filter()],
        ..b
    }
}

/// The Block Header size of `b` with the stored chain, or the error code.
#[verifier::opaque]
pub open spec fn stored_header_size(b: lzma_block) -> Result<u32, u32> {
    header_size_result(stored_block(b))
}

/// The Block Header of `b` with the stored chain, written into `out_len`
/// bytes, or the error code.
#[verifier::opaque]
pub open spec fn stored_header(b: lzma_block, out_len: int) -> Result<Seq<u8>, u32> {
    header_encode_result(stored_block(b), out_len)
}

/// What `lzma_block_uncomp_encode` does with the block `b`, the data `input`
/// and an output of `out_len` bytes written from `out_pos`: its return code,
/// the block afterwards (but for the check field it stores on success) and
/// the bytes it writes at `out_pos` (none on error).
pub open spec fn uncomp_encode_result(b: lzma_block, input: Seq<u8>, out_len: int, out_pos: int) -> (
    u32,
    lzma_block,
    Seq<u8>,
) {
    if out_pos > out_len {
        (LZMA_PROG_ERROR, b, Seq::empty())
    } else if b.version > 1 {
        (LZMA_OPTIONS_ERROR, b, Seq::empty())
    } else if b.check > LZMA_CHECK_ID_MAX {
        (LZMA_PROG_ERROR, b, Seq::empty())
    } else if !check_supported_spec(b.check) {
        (LZMA_UNSUPPORTED_CHECK, b, Seq::empty())
    } else {
        let room = out_len - out_pos;
        let avail = room - room % 4;
        let cks = check_size_spec(b.check) as int;
        let cs = lzma2_bound_spec(input.len() as u64);
        let b1 = lzma_block { uncompressed_size: input.len() as u64, compressed_size: cs, ..b };
        if avail <= cks {
            (LZMA_BUF_ERROR, b, Seq::empty())
        } else if cs == 0 {
            (LZMA_DATA_ERROR, b1, Seq::empty())
        } else {
            match stored_header_size(b1) {
                Err(_) => (LZMA_PROG_ERROR, b1, Seq::empty()),
                Ok(hs) => {
                    let b2 = lzma_block { header_size: hs, ..b1 };
                    if avail - cks < hs + cs {
                        (LZMA_BUF_ERROR, b2, Seq::empty())
                    } else {
                        match stored_header(b2, avail - cks) {
                            Err(_) => (LZMA_PROG_ERROR, b2, Seq::empty()),
                            Ok(h) => (
                                LZMA_OK,
                                b2,
                                h + lzma2_stored(input) + zeros(ceil4(cs as int) - cs) + check_value(
                                    b.check,
                                    input,
                                ),
                            ),
                        }
                    }
                },
            }
        }
    }
}

/// `out` is `o` with `w` written at `p0`.
pub open spec fn written_at(out: Seq<u8>, o: Seq<u8>, p0: int, w: Seq<u8>) -> bool {
    &&& 0 <= p0
    &&& p0 + w.len() <= o.len()
    &&& out == o.take(p0) + w + o.skip(p0 + w.len())
}

/// Writes `x` after the bytes `w` already written at `p0`.
fn put_byte(
    out: &mut [u8],
    pos: &mut usize,
    x: u8,
    Ghost(o): Ghost<Seq<u8>>,
    Ghost(p0): Ghost<int>,
    Ghost(w): Ghost<Seq<u8>>,
)
    requires
        written_at(old(out)@, o, p0, w),
        *old(pos) == p0 + w.len(),
        *old(pos) < o.len(),
    ensures
        written_at(final(out)@, o, p0, w.push(x)),
        *final(pos) == *old(pos) + 1,
{
    let ghost before = out@;
    out[*pos] = x;
    *pos = *pos + 1;
    proof {
        assert(out@ =~= o.take(p0) + w.push(x) + o.skip(p0 + w.len() + 1));
    }
}

/// Writes the bytes of `src` after the bytes `w` already written at `p0`.
fn put_bytes(
    out: &mut [u8],
    pos: &mut usize,
    src: &[u8],
    Ghost(o): Ghost<Seq<u8>>,
    Ghost(p0): Ghost<int>,
    Ghost(w): Ghost<Seq<u8>>,
)
    requires
        written_at(old(out)@, o, p0, w),
        *old(pos) == p0 + w.len(),
        *old(pos) + src@.len() <= o.len(),
    ensures
        written_at(final(out)@, o, p0, w + src@),
        *final(pos) == *old(pos) + src@.len(),
{
    let mut k: usize = 0;
    while k < src.len()
        invariant
            k <= src@.len(),
            written_at(out@, o, p0, w + src@.take(k as int)),
            *pos == p0 + w.len() + k,
            *pos + src@.len() - k <= o.len(),
        decreases src@.len() - k,
    {
        put_byte(out, pos, src[k], Ghost(o), Ghost(p0), Ghost(w + src@.take(k as int)));
        proof {
            assert((w + src@.take(k as int)).push(src@[k as int]) =~= w + src@.take(k + 1));
        }
        k = k + 1;
    }
    assert(src@.take(src@.len() as int) =~= src@);
}

/// Writes the header of a stored chunk of `n` bytes with the control byte
/// `control` after the bytes `w` already written at `p0`.
fn put_chunk_header(
    out: &mut [u8],
    pos: &mut usize,
    control: u8,
    n: usize,
    Ghost(o): Ghost<Seq<u8>>,
    Ghost(p0): Ghost<int>,
    Ghost(w): Ghost<Seq<u8>>,
)
    requires
        1 <= n <= LZMA2_CHUNK_MAX,
        control == 1 || control == 2,
        written_at(old(out)@, o, p0, w),
        *old(pos) == p0 + w.len(),
        *old(pos) + 3 <= o.len(),
    ensures
        written_at(final(out)@, o, p0, w + stored_chunk_header(control == 1, n as nat)),
        *final(pos) == *old(pos) + 3,
{
    let c: usize = n - 1;
    let hi: u8 = (c / 256) as u8;
    let lo: u8 = (c % 256) as u8;
    put_byte(out, pos, control, Ghost(o), Ghost(p0), Ghost(w));
    put_byte(out, pos, hi, Ghost(o), Ghost(p0), Ghost(w.push(control)));
    put_byte(out, pos, lo, Ghost(o), Ghost(p0), Ghost(w.push(control).push(hi)));
    assert(w.push(control).push(hi).push(lo) =~= w + stored_chunk_header(control == 1, n as nat));
}

/// Writes the stored LZMA2 chunks of `input` and the end marker after the
/// bytes `w` already written at `p0`.
fn put_stored(
    out: &mut [u8],
    pos: &mut usize,
    input: &[u8],
    Ghost(o): Ghost<Seq<u8>>,
    Ghost(p0): Ghost<int>,
    Ghost(w): Ghost<Seq<u8>>,
)
    requires
        written_at(old(out)@, o, p0, w),
        *old(pos) == p0 + w.len(),
        *old(pos) + lzma2_stored(input@).len() <= o.len(),
    ensures
        written_at(final(out)@, o, p0, w + lzma2_stored(input@)),
        *final(pos) == *old(pos) + lzma2_stored(input@).len(),
{
    let ghost all = stored_chunks(input@, true);
    let mut in_pos: usize = 0;
    let mut control: u8 = 1;
    let ghost mut done: Seq<u8> = Seq::empty();
    proof {
        lemma_stored_chunks_len(input@, true);
        assert(input@.skip(0) =~= input@);
        assert(done + all =~= all);
    }
    while in_pos < input.len()
        invariant
            in_pos <= input@.len(),
            control == (if in_pos == 0 { 1u8 } else { 2u8 }),
            all == stored_chunks(input@, true),
            all == done + stored_chunks(input@.skip(in_pos as int), in_pos == 0),
            written_at(out@, o, p0, w + done),
            *pos == p0 + w.len() + done.len(),
            *pos + stored_chunks(input@.skip(in_pos as int), in_pos == 0).len() + 1 <= o.len(),
        decreases input@.len() - in_pos,
    {
        let ghost rest = input@.skip(in_pos as int);
        let ghost first = in_pos == 0;
        let left = input.len() - in_pos;
        let copy_size: usize = if left < 0x1_0000 { left } else { 0x1_0000 };
        let ghost head = stored_chunk_header(first, copy_size as nat);
        let ghost body = rest.take(copy_size as int);
        proof {
            assert(copy_size == chunk_len(rest.len()));
            assert(stored_chunks(rest, first) == head + body + stored_chunks(
                rest.skip(copy_size as int),
                false,
            ));
            lemma_stored_chunks_len(rest.skip(copy_size as int), false);
        }
        let ghost w0 = w + done;
        put_chunk_header(out, pos, control, copy_size, Ghost(o), Ghost(p0), Ghost(w0));
        let chunk = vstd::slice::slice_subrange(input, in_pos, in_pos + copy_size);
        proof {
            assert(chunk@ =~= body);
        }
        put_bytes(out, pos, chunk, Ghost(o), Ghost(p0), Ghost(w0 + head));
        proof {
            done = done + head + body;
            assert(w0 + head + body =~= w + done);
            assert(rest.skip(copy_size as int) =~= input@.skip(in_pos + copy_size));
        }
        in_pos = in_pos + copy_size;
        control = 2;
    }
    proof {
        assert(input@.skip(in_pos as int).len() == 0);
        assert(done =~= all);
    }
    put_byte(out, pos, 0, Ghost(o), Ghost(p0), Ghost(w + done));
    proof {
        assert((w + done).push(0u8) =~= w + lzma2_stored(input@));
    }
}

/// The stored chain has a Block Header size whenever the sizes of the block
/// are valid.
pub(crate) proof fn lemma_stored_header_size(b: lzma_block)
    requires
        b.version <= 1,
        0 < b.compressed_size <= crate::types::LZMA_VLI_MAX,
        b.uncompressed_size <= crate::types::LZMA_VLI_MAX,
    ensures
        header_size_result(stored_block(b)) is Ok,
        header_size_result(stored_block(b))->Ok_0 % 4 == 0,
{
    crate::vli::lemma_vli_size_bounds(b.compressed_size);
    crate::vli::lemma_vli_size_bounds(b.uncompressed_size);
    let fs = stored_block(b).filters@;
    assert(fs[1] == end_filter());
    assert(crate::filter_flags::filter_flags_size_spec(fs[0]) is Ok);
    assert(crate::block_header::flags_size_from(fs, 1) == Ok::<nat, u32>(0));
    reveal_with_fuel(crate::block_header::flags_size_from, 2);
    assert(crate::block_header::flags_size_from(fs, 0) is Ok);
    let n = crate::block_header::flags_size_from(fs, 0)->Ok_0;
    let x = 6 + crate::block_header::opt_vli_size(b.compressed_size)
        + crate::block_header::opt_vli_size(b.uncompressed_size) + n;
    assert(n <= 15);
    assert(x <= 40);
    assert(ceil4(x as int) % 4 == 0);
}

/// The filter chain of a Block whose data is stored.
fn stored_filters() -> (r: [Filter; 5])
    ensures
        r == stored_block(arbitrary()).filters,
{
    let end = Filter { id: LZMA_VLI_UNKNOWN, options: FilterOptions::Absent };
    let lzma2 = Filter {
        id: LZMA_FILTER_LZMA2,
        options: FilterOptions::Lzma(
            LzmaRaw {
                dict_size: LZMA_DICT_SIZE_MIN,
                lc: 0,
                lp: 0,
                pb: 0,
                mode: 0,
                nice_len: 0,
                mf: 0,
                depth: 0,
            },
        ),
    };
    [lzma2, end, end, end, end]
}

/// `n` zero bytes in a vector.
fn zero_bytes(n: usize) -> (v: Vec<u8>)
    ensures
        v@ == zeros(n as int),
{
    let mut v: Vec<u8> = Vec::new();
    let mut k: usize = 0;
    while k < n
        invariant
            k <= n,
            v@ == zeros(k as int),
        decreases n - k,
    {
        v.push(0);
        k = k + 1;
        assert(v@ =~= zeros(k as int));
    }
    v
}

/// Writes the Block Header of `block` with the stored chain and the stored
/// LZMA2 data of `input` at `out_pos`, within the first `out_size` bytes of
/// `out`; sets the header size of `block`.
fn block_encode_uncompressed(
    block: &mut lzma_block,
    input: &[u8],
    out: &mut [u8],
    out_pos: &mut usize,
    out_size: usize,
) -> (ret: u32)
    requires
        *old(out_pos) <= out_size <= old(out)@.len(),
        old(block).version <= 1,
        old(block).compressed_size == lzma2_bound_spec(input@.len() as u64),
        old(block).compressed_size != 0,
        old(block).uncompressed_size == input@.len(),
    ensures
        final(out)@.len() == old(out)@.len(),
        match stored_header_size(*old(block)) {
            Err(_) => ret == LZMA_PROG_ERROR && *final(block) == *old(block) && final(out)@
                == old(out)@ && *final(out_pos) == *old(out_pos),
            Ok(hs) => {
                let b2 = lzma_block { header_size: hs, ..*old(block) };
                &&& *final(block) == b2
                &&& hs % 4 == 0
                &&& if out_size - *old(out_pos) < hs + b2.compressed_size {
                    ret == LZMA_BUF_ERROR && final(out)@ == old(out)@ && *final(out_pos)
                        == *old(out_pos)
                } else {
                    match stored_header(b2, out_size - *old(out_pos)) {
                        Err(_) => ret == LZMA_PROG_ERROR && final(out)@ == old(out)@
                            && *final(out_pos) == *old(out_pos),
                        Ok(h) => ret == LZMA_OK && h.len() == hs && written_at(
                            final(out)@,
                            old(out)@,
                            *old(out_pos) as int,
                            h + lzma2_stored(input@),
                        ) && *final(out_pos) == *old(out_pos) + h.len() + lzma2_stored(
                            input@,
                        ).len(),
                    }
                }
            },
        },
{
    let ghost o = out@;
    let ghost p0 = *out_pos as int;
    let ghost b0 = *block;
    reveal(stored_header_size);
    reveal(stored_header);
    let mut t = *block;
    t.filters = stored_filters();
    assert(t == stored_block(b0));
    proof {
        lemma_stored_header_size(b0);
    }
    if lzma_block_header_size(&mut t) != LZMA_OK {
        return LZMA_PROG_ERROR;
    }
    let hs = t.header_size;
    block.header_size = hs;
    let ghost b2 = *block;
    assert(t == stored_block(b2));
    proof {
        assert(block.compressed_size <= crate::types::COMPRESSED_SIZE_MAX);
    }
    if ((out_size - *out_pos) as u64) < hs as u64 + block.compressed_size {
        assert(header_size_result(stored_block(b0)) == Ok::<u32, u32>(hs));
        assert(b2 == lzma_block { header_size: hs, ..b0 });
        assert(out_size - p0 < hs + b2.compressed_size);
        return LZMA_BUF_ERROR;
    }
    let mut hbuf = zero_bytes(hs as usize);
    assert(header_encode_result(t, hs as int) == header_encode_result(t, out_size - p0));
    if lzma_block_header_encode(&t, hbuf.as_mut_slice()) != LZMA_OK {
        return LZMA_PROG_ERROR;
    }
    let ghost h = hbuf@;
    proof {
        assert(h.len() == hs);
        assert(o.take(p0) + Seq::<u8>::empty() + o.skip(p0) =~= o);
        lemma_lzma2_stored_len(input@);
    }
    put_bytes(out, out_pos, hbuf.as_slice(), Ghost(o), Ghost(p0), Ghost(Seq::empty()));
    assert(Seq::<u8>::empty() + h =~= h);
    put_stored(out, out_pos, input, Ghost(o), Ghost(p0), Ghost(h));
    LZMA_OK
}

/// Writes the Block Padding after the stored data `w1` already written at
/// `p0`, then the check of `input`, which also goes to the check field of
/// `block`.
fn put_padding_and_check(
    block: &mut lzma_block,
    input: &[u8],
    out: &mut [u8],
    out_pos: &mut usize,
    check_size: usize,
    Ghost(o): Ghost<Seq<u8>>,
    Ghost(p0): Ghost<int>,
    Ghost(w1): Ghost<Seq<u8>>,
)
    requires
        old(block).compressed_size <= crate::types::COMPRESSED_SIZE_MAX,
        check_size == check_size_spec(old(block).check),
        check_supported_spec(old(block).check),
        input@.len() < sha256_len_limit(),
        written_at(old(out)@, o, p0, w1),
        *old(out_pos) == p0 + w1.len(),
        *old(out_pos) + (ceil4(old(block).compressed_size as int) - old(block).compressed_size)
            + check_size <= o.len(),
    ensures
        written_at(
            final(out)@,
            o,
            p0,
            w1 + zeros(ceil4(old(block).compressed_size as int) - old(block).compressed_size)
                + check_value(old(block).check, input@),
        ),
        *final(out_pos) == *old(out_pos) + (ceil4(old(block).compressed_size as int)
            - old(block).compressed_size) + check_size,
        *final(block) == (lzma_block { raw_check: final(block).raw_check, ..*old(block) }),
        final(block).raw_check@ == check_value(old(block).check, input@) + old(
            block,
        ).raw_check@.skip(check_size as int),
{
    let ghost b0 = *block;
    let cs = block.compressed_size;
    let mut i: u64 = cs;
    while i % 4 != 0
        invariant
            cs <= i <= ceil4(cs as int),
            cs <= crate::types::COMPRESSED_SIZE_MAX,
            written_at(out@, o, p0, w1 + zeros(i - cs)),
            *out_pos == p0 + w1.len() + (i - cs),
            *out_pos + (ceil4(cs as int) - i) + check_size <= o.len(),
        decreases ceil4(cs as int) - i,
    {
        put_byte(out, out_pos, 0, Ghost(o), Ghost(p0), Ghost(w1 + zeros(i - cs)));
        proof {
            assert((w1 + zeros(i - cs)).push(0u8) =~= w1 + zeros(i + 1 - cs));
        }
        i = i + 1;
    }
    proof {
        assert(i == ceil4(cs as int));
    }
    let ghost w2 = w1 + zeros(ceil4(cs as int) - cs);
    if check_size > 0 {
        let mut state = lzma_check_init(block.check);
        lzma_check_update(&mut state, block.check, input);
        assert(state@ =~= input@);
        let ck = lzma_check_finish(&mut state, block.check);
        let mut k: usize = 0;
        while k < check_size
            invariant
                ck@ == check_value(b0.check, input@),
                ck@.len() == check_size,
                check_size <= 64,
                k <= check_size,
                *block == (lzma_block { raw_check: block.raw_check, ..b0 }),
                block.raw_check@ == ck@.take(k as int) + b0.raw_check@.skip(k as int),
            decreases check_size - k,
        {
            block.raw_check[k] = ck[k];
            k = k + 1;
        }
        put_bytes(out, out_pos, ck.as_slice(), Ghost(o), Ghost(p0), Ghost(w2));
        assert(ck@.take(check_size as int) =~= ck@);
    } else {
        assert(check_value(b0.check, input@) =~= Seq::<u8>::empty());
        assert(w2 + check_value(b0.check, input@) =~= w2);
        assert(block.raw_check@.skip(0) =~= block.raw_check@);
    }
}

/// Encodes `input` as one Block whose data is stored in uncompressed LZMA2
/// chunks, at `out_pos` in `out`: the Block Header (with the stored chain
/// and both sizes), the data, the Block Padding and the check of `input`,
/// as `uncomp_encode_result` gives them. On success `out_pos` moves past the
/// Block and the block takes the sizes, the header size and the check field;
/// on error nothing is written and the block changes as
/// `uncomp_encode_result` says.
#[verifier::rlimit(100)]
#[verifier::spinoff_prover]
pub fn lzma_block_uncomp_encode(
    block: &mut lzma_block,
    input: &[u8],
    out: &mut [u8],
    out_pos: &mut usize,
) -> (ret: u32)
    requires
        input@.len() < sha256_len_limit(),
    ensures
        final(out)@.len() == old(out)@.len(),
        ({
            let res = uncomp_encode_result(
                *old(block),
                input@,
                old(out)@.len() as int,
                *old(out_pos) as int,
            );
            let w = res.2;
            &&& ret == res.0
            &&& if res.0 == LZMA_OK {
                &&& written_at(final(out)@, old(out)@, *old(out_pos) as int, w)
                &&& *final(out_pos) == *old(out_pos) + w.len()
                &&& *final(block) == (lzma_block { raw_check: final(block).raw_check, ..res.1 })
                &&& final(block).raw_check@ == check_value(old(block).check, input@) + old(
                    block,
                ).raw_check@.skip(check_size_spec(old(block).check) as int)
            } else {
                &&& final(out)@ == old(out)@
                &&& *final(out_pos) == *old(out_pos)
                &&& *final(block) == res.1
            }
        }),
{
    let ghost o = out@;
    let ghost p0 = *out_pos as int;
    let ghost b0 = *block;
    if *out_pos > out.len() {
        return LZMA_PROG_ERROR;
    }
    if block.version > 1 {
        return LZMA_OPTIONS_ERROR;
    }
    if block.check > LZMA_CHECK_ID_MAX {
        return LZMA_PROG_ERROR;
    }
    if !lzma_check_is_supported(block.check) {
        return LZMA_UNSUPPORTED_CHECK;
    }
    let room = out.len() - *out_pos;
    let out_size = out.len() - room % 4;
    let check_size = lzma_check_size(block.check) as usize;
    if out_size - *out_pos <= check_size {
        return LZMA_BUF_ERROR;
    }
    let out_size = out_size - check_size;
    block.uncompressed_size = input.len() as u64;
    block.compressed_size = lzma2_bound(input.len() as u64);
    if block.compressed_size == 0 {
        return LZMA_DATA_ERROR;
    }
    let ret = block_encode_uncompressed(block, input, out, out_pos, out_size);
    if ret != LZMA_OK {
        return ret;
    }
    let ghost h = stored_header(*block, out_size - p0)->Ok_0;
    let ghost w1 = h + lzma2_stored(input@);
    proof {
        lemma_lzma2_stored_len(input@);
        let hs = block.header_size as int;
        let cs = block.compressed_size as int;
        assert(check_size % 4 == 0);
        assert((room - room % 4) % 4 == 0);
        assert(out_size - p0 >= hs + cs);
        assert(h.len() == hs);
        assert(ceil4(cs) <= out_size - p0 - hs);
    }
    put_padding_and_check(block, input, out, out_pos, check_size, Ghost(o), Ghost(p0), Ghost(w1));
    LZMA_OK
}

} // verus!
