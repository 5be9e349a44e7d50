//! Whole .xz Streams whose data is stored: the LZMA2 data of each Block is
//! a run of uncompressed chunks. This library holds no LZMA encoder or
//! decoder, so these are the .xz files it writes and reads by itself; every
//! .xz decoder reads them.
use vstd::prelude::*;
use crate::block::{block_bound_spec, lzma_block, lzma_block_buffer_bound, lzma_block_unpadded_size, unpadded_size_spec};
use crate::block_buffer_encoder::{
    lemma_lzma2_stored_len, lzma2_stored, stored_block, stored_header, stored_header_size,
    chunk_len, lzma_block_uncomp_encode, stored_chunk_header, stored_chunks, uncomp_encode_result,
};
use crate::block_decoder::{lzma_block_coder, lzma_block_decoder_init, SEQ_CODE, padding_needed, zero_run, SEQ_PADDING};
use crate::block_header::{
    chain_canonical, decode_start, end_filter, flags_encode_from,
    header_encode_result, header_filters_parse, header_size_result, header_with, law_block_header_roundtrip,
    lemma_header_decode_other, lemma_header_decode_prefix, lemma_header_frame, lzma_block_header_decode,
    opt_vli_size, zeros,
};
use crate::check::{check_size_spec, check_supported_spec, check_value};
use crate::block::lzma2_bound_spec;
use crate::types::{ceil4, UNPADDED_SIZE_MAX, UNPADDED_SIZE_MIN};
use crate::index_hash::info_append_fits;
use crate::vli::vli_size_spec;
use crate::filter::{Filter, FilterOptions};
use crate::index_encoder::{
    index_list,    empty_info, hash_info_of, index_encode, index_field, law_index_hash_accepts_field,
    law_index_hash_size_is_field_size, lemma_appendable, lemma_ih_run_extend, pairs_appendable,
};
use crate::index_hash::{IndexHashModel, SEQ_BLOCK, lzma_index_hash_append, lzma_index_hash_decode, lzma_index_hash_init, lzma_index_hash_size};
use crate::sha256::sha256_len_limit;
use crate::stream_flags::{
    law_stream_footer_roundtrip, law_stream_header_roundtrip,    header_decode_result, backward_size_valid, is_backward_size_valid,    footer_bytes, header_bytes, lzma_stream_flags_compare, lzma_stream_footer_decode,
    lzma_stream_footer_encode, lzma_stream_header_decode, lzma_stream_header_encode,
    StreamFlags,
};
use crate::types::{
    LZMA_BUF_ERROR, LZMA_CHECK_ID_MAX, LZMA_CHECK_NONE, LZMA_DATA_ERROR, LZMA_FILTER_LZMA2, LZMA_FORMAT_ERROR, LZMA_OK,
    LZMA_OPTIONS_ERROR, LZMA_PROG_ERROR, LZMA_STREAM_END, LZMA_VLI_MAX, LZMA_VLI_UNKNOWN,
};

verus! {

/// The options of the Block that stores data with the check `check`, before
/// encoding.
pub open spec fn stored_block_start(check: u32) -> lzma_block {
    lzma_block {
        version: 0,
        header_size: 0,
        check,
        compressed_size: LZMA_VLI_UNKNOWN,
        uncompressed_size: LZMA_VLI_UNKNOWN,
        filters: [end_filter(), end_filter(), end_filter(), end_filter(), end_filter()],
        ignore_check: false,
        raw_check: zero_check_field(),
    }
}

/// A check field of zero bytes.
pub open spec fn zero_check_field() -> [u8; 64] {
    [0u8, 0u8, 0u8, 0u8, 0u8, 0u8, 0u8, 0u8, 0u8, 0u8, 0u8, 0u8, 0u8, 0u8, 0u8, 0u8, 0u8, 0u8, 0u8, 0u8, 0u8, 0u8, 0u8, 0u8, 0u8, 0u8, 0u8, 0u8, 0u8, 0u8, 0u8, 0u8, 0u8, 0u8, 0u8, 0u8, 0u8, 0u8, 0u8, 0u8, 0u8, 0u8, 0u8, 0u8, 0u8, 0u8, 0u8, 0u8, 0u8, 0u8, 0u8, 0u8, 0u8, 0u8, 0u8, 0u8, 0u8, 0u8, 0u8, 0u8, 0u8, 0u8, 0u8, 0u8]
}

/// The Stream Flags of a Stream with the check `check` and an Index field of
/// `backward_size` bytes.
pub open spec fn stream_flags_of(check: u32, backward_size: u64) -> StreamFlags {
    StreamFlags { version: 0, backward_size, check }
}

/// A vector of `n` zero bytes.
fn zero_vec(n: usize) -> (r: Vec<u8>)
    ensures
        r@.len() == n,
{
    let mut v: Vec<u8> = Vec::new();
    while v.len() < n
        invariant
            v@.len() <= n,
        decreases n - v@.len(),
    {
        v.push(0u8);
    }
    v
}

/// Appends `s` to `out`.
fn append(out: &mut Vec<u8>, s: &[u8])
    ensures
        final(out)@ == old(out)@ + s@,
{
    let ghost o = out@;
    let mut i: usize = 0;
    while i < s.len()
        invariant
            i <= s@.len(),
            out@ == o + s@.take(i as int),
        decreases s.len() - i,
    {
        out.push(s[i]);
        i = i + 1;
        assert(out@ =~= o + s@.take(i as int));
    }
    assert(s@.take(s@.len() as int) =~= s@);
}

/// What the Block encoder gives for `data` with the check `check`, into a
/// buffer of the bound's size.
#[verifier::opaque]
pub open spec fn stored_res(data: Seq<u8>, check: u32) -> (u32, lzma_block, Seq<u8>) {
    let b = block_bound_spec(data.len() as u64);
    let bound: int = if b > usize::MAX { 0 } else { b as int };
    uncomp_encode_result(stored_block_start(check), data, bound, 0)
}

/// The block the decoder reads a Block Header of `hs` bytes into, in a
/// Stream with the check `check`.
pub open spec fn dec_block(hs: u32, check: u32) -> lzma_block {
    lzma_block {
        version: 1,
        header_size: hs,
        check,
        compressed_size: LZMA_VLI_UNKNOWN,
        uncompressed_size: LZMA_VLI_UNKNOWN,
        filters: [end_filter(), end_filter(), end_filter(), end_filter(), end_filter()],
        ignore_check: false,
        raw_check: zero_check_field(),
    }
}

/// The stored Block for non-empty `data`: its header, its LZMA2 chunks, its
/// padding and its check; and its header reads back into `dec_block` with
/// the sizes and the one LZMA2 filter.
#[verifier::rlimit(100)]
#[verifier::spinoff_prover]
proof fn lemma_stored_block_layout(data: Seq<u8>, check: u32, rest: Seq<u8>)
    requires
        data.len() > 0,
        data.len() < sha256_len_limit(),
        stored_res(data, check).0 == LZMA_OK,
    ensures
        ({
            let res = stored_res(data, check);
            let b2 = res.1;
            let hs = b2.header_size;
            let cs = b2.compressed_size;
            let w = res.2;
            let h = w.take(hs as int);
            let x = w + rest;
            &&& 8 <= hs && hs % 4 == 0
            &&& check <= LZMA_CHECK_ID_MAX && check_supported_spec(check)
            &&& b2 == (lzma_block {
                header_size: hs,
                compressed_size: cs,
                uncompressed_size: data.len() as u64,
                ..stored_block_start(check)
            })
            &&& cs as int == lzma2_stored(data).len()
            &&& unpadded_size_spec(b2) != 0
            &&& h.len() == hs
            &&& w == h + lzma2_stored(data) + zeros(ceil4(cs as int) - cs) + check_value(check, data)
            &&& (w[0] + 1) * 4 == hs
            &&& w[0] != 0
            &&& crate::block_header::header_decode_result(dec_block(hs, check), x) == Ok::<lzma_block, u32>(
                lzma_block {
                    compressed_size: cs,
                    uncompressed_size: data.len() as u64,
                    ..decode_start(dec_block(hs, check))
                },
            )
            &&& header_filters_parse(decode_start(dec_block(hs, check)), x.take(hs - 4), x[1])
                == chain_canonical(stored_block(b2).filters@)
        }),
{
    reveal(stored_header_size);
    reveal(stored_header);
    reveal(stored_res);
    let res = stored_res(data, check);
    let b = stored_block_start(check);
    let bb = block_bound_spec(data.len() as u64);
    let bound: int = if bb > usize::MAX { 0 } else { bb as int };
    let room = bound;
    let avail = room - room % 4;
    let cks = check_size_spec(check) as int;
    let cs = lzma2_bound_spec(data.len() as u64);
    let b1 = lzma_block { uncompressed_size: data.len() as u64, compressed_size: cs, ..b };
    let hs = header_size_result(stored_block(b1))->Ok_0;
    let b2 = lzma_block { header_size: hs, ..b1 };
    let sb = stored_block(b2);
    let h = header_encode_result(sb, avail - cks)->Ok_0;
    assert(res.1 == b2);
    assert(res.2 == h + lzma2_stored(data) + zeros(ceil4(cs as int) - cs) + check_value(check, data));
    lemma_header_frame(sb, avail - cks);
    law_block_header_roundtrip(sb, avail - cks);
    let fs = sb.filters@;
    let fb = flags_encode_from(fs, 0, hs - 4 - 2 - opt_vli_size(sb.compressed_size) - opt_vli_size(sb.uncompressed_size))->Ok_0;
    assert(h == header_with(sb, fb));
    assert(h.len() == hs);
    lemma_lzma2_stored_len(data);
    let w = res.2;
    assert(w.take(hs as int) =~= h);
    let tail = lzma2_stored(data) + zeros(ceil4(cs as int) - cs) + check_value(check, data) + rest;
    assert(w + rest =~= h + tail);
    let db = dec_block(hs, check);
    lemma_header_decode_prefix(db, h, tail);
    assert(hs >= 8);
    lemma_header_decode_other(sb, db, h);
    assert((w + rest).take(hs - 4) =~= h.take(hs - 4));
    assert((w + rest)[1] == h[1]);
    assert(w[0] == h[0]);
}

/// The Block bytes and the Index pairs of the Stream that stores `data`
/// with the check `check`: no Block for no data; else the stored Block the
/// Block encoder writes into a buffer of the bound's size, or its error
/// (and `LZMA_PROG_ERROR` should its Unpadded Size not fit an Index).
pub open spec fn stored_blocks_result(data: Seq<u8>, check: u32) -> Result<(Seq<u8>, Seq<(u64, u64)>), u32> {
    if data.len() == 0 {
        Ok((Seq::empty(), Seq::empty()))
    } else {
        let res = stored_res(data, check);
        let u = unpadded_size_spec(res.1);
        if res.0 != LZMA_OK {
            Err(res.0)
        } else if u == 0 || u > LZMA_VLI_MAX {
            Err(LZMA_PROG_ERROR)
        } else {
            Ok((res.2, seq![(u, data.len() as u64)]))
        }
    }
}

/// The .xz Stream that stores `data` with the check `check`: the Stream
/// Header, the Blocks, the Index and the Stream Footer; or the error code.
pub open spec fn stored_stream_result(data: Seq<u8>, check: u32) -> Result<Seq<u8>, u32> {
    if check > LZMA_CHECK_ID_MAX {
        Err(LZMA_PROG_ERROR)
    } else {
        match stored_blocks_result(data, check) {
            Err(e) => Err(e),
            Ok((blocks, pairs)) => {
                let idx = index_field(pairs);
                let ff = stream_flags_of(check, idx.len() as u64);
                if !backward_size_valid(ff) {
                    Err(LZMA_PROG_ERROR)
                } else {
                    Ok(header_bytes(stream_flags_of(check, 0)) + blocks + idx + footer_bytes(ff))
                }
            },
        }
    }
}

/// Encodes `data` as one .xz Stream with the check `check`, as
/// `stored_stream_result` says: the Stream Header, one Block that stores the
/// data (none for no data), the Index of that Block and the Stream Footer.
/// The error of the Block encoder is returned as it is (an unsupported check
/// gives `LZMA_UNSUPPORTED_CHECK`).
pub fn xz_stored_encode(data: &[u8], check: u32) -> (r: Result<Vec<u8>, u32>)
    requires
        data@.len() < sha256_len_limit(),
    ensures
        match stored_stream_result(data@, check) {
            Ok(s) => r matches Ok(v) && v@ == s,
            Err(e) => r == Err::<Vec<u8>, u32>(e),
        },
{
    reveal(stored_res);
    if check > LZMA_CHECK_ID_MAX {
        return Err(LZMA_PROG_ERROR);
    }
    let flags = StreamFlags { version: 0, backward_size: 0, check };
    let mut header = [0u8; 12];
    lzma_stream_header_encode(&flags, &mut header);
    let mut out: Vec<u8> = Vec::new();
    append(&mut out, &header);
    let mut pairs: Vec<(u64, u64)> = Vec::new();
    if data.len() > 0 {
        let end = Filter { id: LZMA_VLI_UNKNOWN, options: FilterOptions::Absent };
        let mut block = lzma_block {
            version: 0,
            header_size: 0,
            check,
            compressed_size: LZMA_VLI_UNKNOWN,
            uncompressed_size: LZMA_VLI_UNKNOWN,
            filters: [end, end, end, end, end],
            ignore_check: false,
            raw_check: [0u8, 0u8, 0u8, 0u8, 0u8, 0u8, 0u8, 0u8, 0u8, 0u8, 0u8, 0u8, 0u8, 0u8, 0u8, 0u8, 0u8, 0u8, 0u8, 0u8, 0u8, 0u8, 0u8, 0u8, 0u8, 0u8, 0u8, 0u8, 0u8, 0u8, 0u8, 0u8, 0u8, 0u8, 0u8, 0u8, 0u8, 0u8, 0u8, 0u8, 0u8, 0u8, 0u8, 0u8, 0u8, 0u8, 0u8, 0u8, 0u8, 0u8, 0u8, 0u8, 0u8, 0u8, 0u8, 0u8, 0u8, 0u8, 0u8, 0u8, 0u8, 0u8, 0u8, 0u8],
        };
        assert(block == stored_block_start(check));
        let bound = lzma_block_buffer_bound(data.len());
        let mut buf = zero_vec(bound);
        let mut pos: usize = 0;
        let ret = lzma_block_uncomp_encode(&mut block, data, buf.as_mut_slice(), &mut pos);
        if ret != LZMA_OK {
            return Err(ret);
        }
        let unpadded = lzma_block_unpadded_size(&block);
        if unpadded == 0 || unpadded > LZMA_VLI_MAX {
            return Err(LZMA_PROG_ERROR);
        }
        let written = vstd::slice::slice_subrange(buf.as_slice(), 0, pos);
        append(&mut out, written);
        pairs.push((unpadded, data.len() as u64));
    }
    let index = index_encode(pairs.as_slice());
    append(&mut out, index.as_slice());
    let footer_flags = StreamFlags { version: 0, backward_size: index.len() as u64, check };
    if !is_backward_size_valid(&footer_flags) {
        return Err(LZMA_PROG_ERROR);
    }
    let mut footer = [0u8; 12];
    lzma_stream_footer_encode(&footer_flags, &mut footer);
    append(&mut out, &footer);
    Ok(out)
}

/// Reading LZMA2 data made of uncompressed chunks from the start of `s`, up
/// to and including its end marker: the data and the number of bytes read.
/// The first chunk must reset the dictionary; `LZMA_OPTIONS_ERROR` for a
/// compressed chunk (this library has no LZMA decoder), `LZMA_DATA_ERROR`
/// for a control byte LZMA2 does not have or for input that ends first.
pub open spec fn stored_parse(s: Seq<u8>, first: bool) -> Result<(Seq<u8>, nat), u32>
    decreases s.len(),
{
    if s.len() == 0 {
        Err(LZMA_DATA_ERROR)
    } else if s[0] == 0 {
        Ok((Seq::empty(), 1))
    } else if s[0] >= 0x80 {
        Err(LZMA_OPTIONS_ERROR)
    } else if s[0] > 2 || (first && s[0] != 1) || s.len() < 3 {
        Err(LZMA_DATA_ERROR)
    } else {
        let size = s[1] * 256 + s[2] + 1;
        if s.len() - 3 < size {
            Err(LZMA_DATA_ERROR)
        } else {
            match stored_parse(s.skip(3 + size), false) {
                Ok((d, u)) => Ok((s.subrange(3, 3 + size) + d, (u + 3 + size) as nat)),
                Err(e) => Err(e),
            }
        }
    }
}

proof fn lemma_stored_parse_errors(s: Seq<u8>, first: bool)
    ensures
        stored_parse(s, first) matches Err(e) ==> e == LZMA_DATA_ERROR || e == LZMA_OPTIONS_ERROR,
    decreases s.len(),
{
    if s.len() >= 3 && s[0] != 0 && s[0] < 0x80 && !(s[0] > 2 || (first && s[0] != 1)) {
        let size = s[1] * 256 + s[2] + 1;
        if s.len() - 3 >= size {
            lemma_stored_parse_errors(s.skip(3 + size), false);
        }
    }
}

/// Reading the chunks that store `d`, then the end marker, gives `d` back
/// and reads exactly those bytes, whatever follows.
pub proof fn lemma_stored_parse_chunks(d: Seq<u8>, first: bool, rest: Seq<u8>)
    ensures
        stored_parse(stored_chunks(d, first) + seq![0u8] + rest, first) == Ok::<(Seq<u8>, nat), u32>(
            (d, stored_chunks(d, first).len() + 1),
        ),
    decreases d.len(),
{
    let s = stored_chunks(d, first) + seq![0u8] + rest;
    if d.len() == 0 {
        assert(s[0] == 0);
        assert(d =~= Seq::<u8>::empty());
    } else {
        let n = chunk_len(d.len());
        let h = stored_chunk_header(first, n);
        let tail = stored_chunks(d.skip(n as int), false) + seq![0u8] + rest;
        assert(s =~= h + d.take(n as int) + tail);
        assert(s[0] == h[0]);
        assert(s[0] == (if first { 1u8 } else { 2u8 }));
        assert(s.len() >= 3 + n);
        assert((n - 1) / 256 < 256);
        assert(s[1] == ((n - 1) / 256) as u8 && s[2] == ((n - 1) % 256) as u8);
        assert(s[1] * 256 + s[2] + 1 == n);
        assert(s.skip(3 + n as int) =~= tail);
        assert(s.subrange(3, 3 + n as int) =~= d.take(n as int));
        lemma_stored_parse_chunks(d.skip(n as int), false, rest);
        assert(d.take(n as int) + d.skip(n as int) =~= d);
        assert(stored_chunks(d, first).len() == 3 + n + stored_chunks(d.skip(n as int), false).len());
    }
}

/// `r` with `prefix` in front of its data and `used` more bytes read.
pub open spec fn parse_after(r: Result<(Seq<u8>, nat), u32>, prefix: Seq<u8>, used: nat) -> Result<
    (Seq<u8>, nat),
    u32,
> {
    match r {
        Ok((d, u)) => Ok((prefix + d, u + used)),
        Err(e) => Err(e),
    }
}

/// Reads LZMA2 data made of uncompressed chunks from `input` at `start`, as
/// `stored_parse` says.
fn read_stored_lzma2(input: &[u8], start: usize) -> (r: Result<(Vec<u8>, usize), u32>)
    requires
        start <= input@.len(),
    ensures
        match stored_parse(input@.skip(start as int), true) {
            Ok((d, u)) => r matches Ok((d2, u2)) && d2@ == d && u2 == u,
            Err(e) => r == Err::<(Vec<u8>, usize), u32>(e),
        },
        r matches Ok((d, used)) ==> start + used <= input@.len() && d@.len() <= used,
        r matches Err(e) ==> e == LZMA_DATA_ERROR || e == LZMA_OPTIONS_ERROR,
{
    proof {
        lemma_stored_parse_errors(input@.skip(start as int), true);
    }
    let ghost whole = stored_parse(input@.skip(start as int), true);
    let mut data: Vec<u8> = Vec::new();
    let mut p = start;
    let mut first = true;
    assert(data@ + Seq::<u8>::empty() =~= data@);
    loop
        invariant
            start <= p <= input@.len(),
            data@.len() <= p - start,
            whole == stored_parse(input@.skip(start as int), true),
            whole == parse_after(stored_parse(input@.skip(p as int), first), data@, (p - start) as nat),
            first ==> p == start,
        decreases input@.len() - p,
    {
        let ghost t = input@.skip(p as int);
        if p >= input.len() {
            return Err(LZMA_DATA_ERROR);
        }
        let control = input[p];
        assert(t[0] == control);
        if control == 0 {
            assert(data@ + Seq::<u8>::empty() =~= data@);
            return Ok((data, p + 1 - start));
        }
        if control >= 0x80 {
            return Err(LZMA_OPTIONS_ERROR);
        }
        if control > 2 || (first && control != 1) {
            return Err(LZMA_DATA_ERROR);
        }
        if input.len() - p < 3 {
            return Err(LZMA_DATA_ERROR);
        }
        let size = (input[p + 1] as usize) * 256 + (input[p + 2] as usize) + 1;
        assert(t[1] == input@[p + 1] && t[2] == input@[p + 2]);
        if input.len() - p - 3 < size {
            return Err(LZMA_DATA_ERROR);
        }
        let ghost d0 = data@;
        let q = p + 3;
        let mut k: usize = 0;
        while k < size
            invariant
                start <= p,
                q == p + 3,
                q + size <= input.len(),
                k <= size,
                data@ == d0 + input@.subrange(q as int, q + k),
                d0.len() <= p - start,
            decreases size - k,
        {
            data.push(input[q + k]);
            k = k + 1;
            assert(data@ =~= d0 + input@.subrange(q as int, q + k));
        }
        assert(t.skip(3 + size) =~= input@.skip(q + size));
        assert(t.subrange(3, 3 + size) =~= input@.subrange(q as int, q + size));
        assert(parse_after(stored_parse(input@.skip(q + size), false), data@, (q + size - start) as nat)
            == parse_after(stored_parse(t, first), d0, (p - start) as nat)) by {
            match stored_parse(input@.skip(q + size), false) {
                Ok((d, u)) => {
                    assert(d0 + (input@.subrange(q as int, q + size) + d) =~= data@ + d);
                },
                Err(e) => {},
            }
        }
        p = q + size;
        first = false;
    }
}

/// Reads one Block of a Stream with the check `check` from `input` at
/// `*pos`, whose first byte is the Block Header Size, appending its data to
/// `out`; returns the Block's Unpadded Size and uncompressed size.
#[verifier::rlimit(100)]
#[verifier::spinoff_prover]
fn read_stored_block(input: &[u8], pos: &mut usize, check: u32, out: &mut Vec<u8>, Ghost(d): Ghost<Seq<u8>>) -> (r: Result<(u64, u64), u32>)
    requires
        *old(pos) < input@.len(),
        check <= LZMA_CHECK_ID_MAX,
    ensures
        *final(pos) <= input@.len(),
        r matches Err(e) ==> e != LZMA_STREAM_END,
        stored_block_at(input@, *old(pos) as int, d, check) ==> {
            let res = stored_res(d, check);
            &&& r == Ok::<(u64, u64), u32>((unpadded_size_spec(res.1), d.len() as u64))
            &&& *final(pos) == *old(pos) + res.2.len()
            &&& final(out)@ == old(out)@ + d
        },
{
    let ghost good = stored_block_at(input@, *pos as int, d, check);
    let ghost p0 = *pos as int;
    let ghost res = stored_res(d, check);
    let ghost w = res.2;
    let ghost rest = input@.skip(p0 + w.len());
    proof {
        if good {
            assert(input@.skip(p0) =~= w + rest);
            lemma_stored_block_layout(d, check, rest);
            assert(input@[p0] == w[0]);
        }
    }
    let header_size = (input[*pos] as u32 + 1) * 4;
    if input.len() - *pos < header_size as usize {
        return Err(LZMA_DATA_ERROR);
    }
    let end = Filter { id: LZMA_VLI_UNKNOWN, options: FilterOptions::Absent };
    let mut block = lzma_block {
        version: 1,
        header_size,
        check,
        compressed_size: LZMA_VLI_UNKNOWN,
        uncompressed_size: LZMA_VLI_UNKNOWN,
        filters: [end, end, end, end, end],
        ignore_check: false,
        raw_check: [0u8, 0u8, 0u8, 0u8, 0u8, 0u8, 0u8, 0u8, 0u8, 0u8, 0u8, 0u8, 0u8, 0u8, 0u8, 0u8, 0u8, 0u8, 0u8, 0u8, 0u8, 0u8, 0u8, 0u8, 0u8, 0u8, 0u8, 0u8, 0u8, 0u8, 0u8, 0u8, 0u8, 0u8, 0u8, 0u8, 0u8, 0u8, 0u8, 0u8, 0u8, 0u8, 0u8, 0u8, 0u8, 0u8, 0u8, 0u8, 0u8, 0u8, 0u8, 0u8, 0u8, 0u8, 0u8, 0u8, 0u8, 0u8, 0u8, 0u8, 0u8, 0u8, 0u8, 0u8],
    };
    assert(block == dec_block(header_size, check));
    let rest_in = vstd::slice::slice_subrange(input, *pos, input.len());
    assert(rest_in@ =~= input@.skip(p0));
    let ret = lzma_block_header_decode(&mut block, rest_in);
    if ret == LZMA_STREAM_END {
        return Err(LZMA_PROG_ERROR);
    }
    if ret != LZMA_OK {
        return Err(ret);
    }
    *pos = *pos + header_size as usize;
    proof {
        if good {
            let fs = stored_block(res.1).filters@;
            assert(fs[1].id == LZMA_VLI_UNKNOWN);
            assert(crate::block_header::filters_from(fs, 1) == 0);
            assert(crate::block_header::filters_from(fs, 0) == 1);
            assert(block.filters@[0] == chain_canonical(fs)[0]);
            assert(block.filters@[1] == end_filter());
        }
    }
    if block.filters[0].id != LZMA_FILTER_LZMA2 || block.filters[1].id != LZMA_VLI_UNKNOWN {
        return Err(LZMA_OPTIONS_ERROR);
    }
    proof {
        if good {
            assert(unpadded_size_spec(block) == unpadded_size_spec(res.1));
        }
    }
    let coder = match lzma_block_decoder_init(&block) {
        Ok(c) => c,
        Err(e) => {
            return Err(e);
        },
    };
    read_stored_block_data(input, pos, &mut block, coder, out, check, Ghost(good), Ghost(d), Ghost(p0))
}

/// The rest of a stored Block after its header: its LZMA2 chunks, padding
/// and check, read through the Block coder `coder` for `block`.
#[verifier::rlimit(100)]
#[verifier::spinoff_prover]
fn read_stored_block_data(
    input: &[u8],
    pos: &mut usize,
    block: &mut lzma_block,
    coder: lzma_block_coder,
    out: &mut Vec<u8>,
    check: u32,
    Ghost(good): Ghost<bool>,
    Ghost(d): Ghost<Seq<u8>>,
    Ghost(p0): Ghost<int>,
) -> (r: Result<(u64, u64), u32>)
    requires
        *old(pos) <= input@.len(),
        coder.wf(),
        coder.sequence == SEQ_CODE,
        coder.compressed_size == 0,
        coder.uncompressed_size == 0,
        coder.data() == Seq::<u8>::empty(),
        coder.check_id == check,
        coder.check_pos == 0,
        !coder.ignore_check,
        coder.expected_compressed == old(block).compressed_size,
        coder.expected_uncompressed == old(block).uncompressed_size,
        good ==> {
            let res = stored_res(d, check);
            &&& stored_block_at(input@, p0, d, check)
            &&& *old(pos) == p0 + res.1.header_size
            &&& coder.expected_compressed == res.1.compressed_size
            &&& coder.expected_uncompressed == d.len()
            &&& coder.compressed_limit == res.1.compressed_size
            &&& coder.uncompressed_limit == d.len()
            &&& unpadded_size_spec(*old(block)) == unpadded_size_spec(res.1)
            &&& old(block).uncompressed_size == LZMA_VLI_UNKNOWN || old(block).uncompressed_size == d.len()
        },
    ensures
        *final(pos) <= input@.len(),
        r matches Err(e) ==> e != LZMA_STREAM_END,
        good ==> {
            let res = stored_res(d, check);
            &&& r == Ok::<(u64, u64), u32>((unpadded_size_spec(res.1), d.len() as u64))
            &&& *final(pos) == p0 + res.2.len()
            &&& final(out)@ == old(out)@ + d
        },
{
    let mut coder = coder;
    let ghost res = stored_res(d, check);
    let ghost rest = input@.skip(p0 + res.2.len());
    let ghost p1 = *pos as int;
    proof {
        if good {
            lemma_block_slices(input@, p0, d, check);
            let rest2 = zeros(ceil4(res.1.compressed_size as int) - res.1.compressed_size)
                + check_value(check, d) + rest;
            assert(p1 == p0 + res.1.header_size);
            lemma_stored_parse_chunks(d, true, rest2);
            lemma_lzma2_stored_len(d);
            assert(lzma2_stored(d) =~= stored_chunks(d, true) + seq![0u8]);
        }
    }
    let parsed = read_stored_lzma2(input, *pos);
    let (data, used) = match parsed {
        Ok(x) => x,
        Err(e) => {
            return Err(e);
        },
    };
    assert(*pos + used <= input.len());
    if used as u64 > coder.compressed_limit || data.len() as u64 > coder.uncompressed_limit
        || data.len() as u64 >= 0x2000_0000_0000_0000u64 {
        return Err(LZMA_DATA_ERROR);
    }
    *pos = *pos + used;
    match coder.block_decode_code(block, data.as_slice(), used, LZMA_STREAM_END, true, true) {
        Some(r) => {
            return Err(r);
        },
        None => {},
    }
    proof {
        if good {
            assert(block.compressed_size == res.1.compressed_size);
            assert(*block == (lzma_block {
                compressed_size: block.compressed_size,
                uncompressed_size: block.uncompressed_size,
                ..*old(block)
            }));
        }
    }
    read_stored_block_end(input, pos, block, coder, out, data, check, Ghost(good), Ghost(d), Ghost(p0))
}

/// The padding and check of a stored Block, once its data is read.
#[verifier::rlimit(100)]
#[verifier::spinoff_prover]
fn read_stored_block_end(
    input: &[u8],
    pos: &mut usize,
    block: &mut lzma_block,
    coder: lzma_block_coder,
    out: &mut Vec<u8>,
    data: Vec<u8>,
    check: u32,
    Ghost(good): Ghost<bool>,
    Ghost(d): Ghost<Seq<u8>>,
    Ghost(p0): Ghost<int>,
) -> (r: Result<(u64, u64), u32>)
    requires
        *old(pos) <= input@.len(),
        coder.wf(),
        coder.sequence == SEQ_PADDING,
        coder.check_id == check,
        !coder.ignore_check,
        coder.data() == data@,
        good ==> {
            let res = stored_res(d, check);
            &&& stored_block_at(input@, p0, d, check)
            &&& *old(pos) == p0 + res.1.header_size + res.1.compressed_size
            &&& coder.compressed_size == res.1.compressed_size
            &&& data@ == d
            &&& unpadded_size_spec(*old(block)) == unpadded_size_spec(res.1)
            &&& old(block).uncompressed_size == d.len()
        },
    ensures
        *final(pos) <= input@.len(),
        r matches Err(e) ==> e != LZMA_STREAM_END,
        good ==> {
            let res = stored_res(d, check);
            &&& r == Ok::<(u64, u64), u32>((unpadded_size_spec(res.1), d.len() as u64))
            &&& *final(pos) == p0 + res.2.len()
            &&& final(out)@ == old(out)@ + d
        },
{
    let mut coder = coder;
    let ghost res = stored_res(d, check);
    let ghost p2 = *pos as int;
    proof {
        if good {
            let cs = res.1.compressed_size;
            let k = padding_needed(cs);
            assert(k == ceil4(cs as int) - cs);
            lemma_block_slices(input@, p0, d, check);
            assert(p2 == p0 + res.1.header_size + cs);
            assert(zero_run(input@, p2, k)) by {
                assert forall|j: int| p2 <= j < p2 + k implies input@[j] == 0 by {
                    assert(input@[j] == input@.subrange(p2, p2 + k)[j - p2]);
                }
            }
            if check != LZMA_CHECK_NONE {
                lemma_check_value_len(check, d);
            }
        }
    }
    let r = coder.block_decode_tail(block, input, pos);
    proof {
        if good {
            let size = check_size_spec(check) as int;
            let k = padding_needed(res.1.compressed_size);
            if check != LZMA_CHECK_NONE {
                assert(block.raw_check@.take(size) =~= input@.subrange(p2 + k, p2 + k + size));
            }
        }
    }
    if r != LZMA_STREAM_END {
        return Err(if r == LZMA_OK { LZMA_DATA_ERROR } else { r });
    }
    append(out, data.as_slice());
    let unpadded = lzma_block_unpadded_size(block);
    proof {
        if good {
            assert(data@ == d);
            assert(*block == (lzma_block { raw_check: block.raw_check, ..*old(block) }));
            assert(unpadded == unpadded_size_spec(res.1));
            assert(block.uncompressed_size == d.len());
            assert(*pos == p0 + res.2.len());
        }
    }
    Ok((unpadded, block.uncompressed_size))
}

/// The parts of the stored Block for non-empty `data`: its header, its
/// LZMA2 chunks, its padding and its check.
#[verifier::spinoff_prover]
proof fn lemma_stored_block_shape(data: Seq<u8>, check: u32)
    requires
        data.len() > 0,
        data.len() < sha256_len_limit(),
        stored_res(data, check).0 == LZMA_OK,
    ensures
        ({
            let res = stored_res(data, check);
            let hs = res.1.header_size;
            let cs = res.1.compressed_size;
            let w = res.2;
            &&& 8 <= hs && hs % 4 == 0
            &&& check <= LZMA_CHECK_ID_MAX && check_supported_spec(check)
            &&& cs as int == lzma2_stored(data).len()
            &&& w.take(hs as int).len() == hs
            &&& w == w.take(hs as int) + lzma2_stored(data) + zeros(ceil4(cs as int) - cs)
                + check_value(check, data)
            &&& (w[0] + 1) * 4 == hs
            &&& w[0] != 0
        }),
{
    lemma_stored_block_layout(data, check, Seq::empty());
}

/// Where the parts of a stored Block lie in the input that holds it.
proof fn lemma_block_slices(input: Seq<u8>, p0: int, d: Seq<u8>, check: u32)
    requires
        stored_block_at(input, p0, d, check),
    ensures
        ({
            let res = stored_res(d, check);
            let hs = res.1.header_size as int;
            let cs = res.1.compressed_size as int;
            let k = ceil4(cs) - cs;
            let w = res.2;
            let rest = input.skip(p0 + w.len());
            let zc = zeros(k) + check_value(check, d);
            &&& input.skip(p0 + hs) == stored_chunks(d, true) + seq![0u8] + (zc + rest)
            &&& input.subrange(p0 + hs + cs, p0 + hs + cs + k) == zeros(k)
            &&& input.subrange(p0 + hs + cs + k, p0 + w.len()) == check_value(check, d)
            &&& w.len() == hs + cs + k + check_value(check, d).len()
            &&& check_supported_spec(check)
            &&& (input[p0] + 1) * 4 == hs
            &&& input[p0] != 0
        }),
{
    let res = stored_res(d, check);
    let w = res.2;
    let rest = input.skip(p0 + w.len());
    assert(input.skip(p0) =~= w + rest) by {
        assert(input.subrange(p0, p0 + w.len()) == w);
    }
    lemma_stored_block_shape(d, check);
    let hs = res.1.header_size as int;
    let cs = res.1.compressed_size as int;
    let k = ceil4(cs) - cs;
    let h = w.take(hs);
    let l = lzma2_stored(d);
    let c = check_value(check, d);
    assert(l =~= stored_chunks(d, true) + seq![0u8]);
    assert(input.skip(p0 + hs) =~= w.skip(hs) + rest);
    assert(w.skip(hs) =~= l + zeros(k) + c);
    assert(input.subrange(p0 + hs + cs, p0 + hs + cs + k) =~= w.subrange(hs + cs, hs + cs + k));
    assert(w.subrange(hs + cs, hs + cs + k) =~= zeros(k));
    assert(input.subrange(p0 + hs + cs + k, p0 + w.len()) =~= w.subrange(hs + cs + k, w.len() as int));
    assert(w.subrange(hs + cs + k, w.len() as int) =~= c);
    assert(input[p0] == input.subrange(p0, p0 + w.len())[0]);
    assert(input.skip(p0 + hs) =~= stored_chunks(d, true) + seq![0u8] + (zeros(k) + c + rest));
}

/// The check field has as many bytes as the check's size.
proof fn lemma_check_value_len(check: u32, d: Seq<u8>)
    requires
        check_supported_spec(check),
        check != LZMA_CHECK_NONE,
    ensures
        check_value(check, d).len() == check_size_spec(check),
{
}

/// `input` holds at `pos` the stored Block that the Block encoder writes for
/// the non-empty `data` with the check `check`.
pub open spec fn stored_block_at(input: Seq<u8>, pos: int, data: Seq<u8>, check: u32) -> bool {
    &&& data.len() > 0
    &&& data.len() < sha256_len_limit()
    &&& stored_res(data, check).0 == LZMA_OK
    &&& 0 <= pos
    &&& pos + stored_res(data, check).2.len() <= input.len()
    &&& input.subrange(pos, pos + stored_res(data, check).2.len()) == stored_res(data, check).2
}

/// Reads one Stream from `input` at `*pos`, appending the data of its
/// Blocks to `out`. `first` tells whether it is the first Stream, whose
/// Stream Header errors come out as they are; after it a wrong header is
/// `LZMA_DATA_ERROR`.
#[verifier::rlimit(100)]
#[verifier::spinoff_prover]
fn read_stored_stream(
    input: &[u8],
    pos: &mut usize,
    first: bool,
    out: &mut Vec<u8>,
    Ghost(d): Ghost<Seq<u8>>,
    Ghost(c): Ghost<u32>,
) -> (r: u32)
    requires
        *old(pos) <= input@.len(),
    ensures
        *final(pos) <= input@.len(),
        *old(pos) + 12 > input@.len() ==> r == LZMA_DATA_ERROR,
        *old(pos) + 12 <= input@.len() ==> (header_decode_result(
            input@.subrange(*old(pos) as int, *old(pos) + 12),
        ) matches Err(e) ==> r == (if e == LZMA_FORMAT_ERROR && !first {
            LZMA_DATA_ERROR
        } else {
            e
        })),
        r == LZMA_STREAM_END ==> *final(pos) > *old(pos),
        stored_stream_at(input@, *old(pos) as int, d, c) ==> {
            &&& r == LZMA_STREAM_END
            &&& *final(pos) == *old(pos) + stored_stream_result(d, c)->Ok_0.len()
            &&& final(out)@ == old(out)@ + d
        },
{
    let ghost good = stored_stream_at(input@, *pos as int, d, c);
    let ghost p0 = *pos as int;
    let ghost out0 = out@;
    let ghost br = stored_blocks_result(d, c)->Ok_0;
    let ghost pairs = br.1;
    let ghost idx = index_field(pairs);
    let ghost p3 = p0 + 12 + br.0.len();
    let ghost p4 = p3 + idx.len();
    let ghost ff = stream_flags_of(c, idx.len() as u64);
    proof {
        if good {
            lemma_stream_slices(input@, p0, d, c);
            law_stream_header_roundtrip(stream_flags_of(c, 0));
            if d.len() > 0 {
                lemma_stored_pairs_appendable(d, c);
                lemma_block_slices(input@, p0 + 12, d, c);
            } else {
                assert(pairs_appendable(pairs));
            }
            lemma_appendable(pairs);
            assert(idx[0] == index_list(pairs)[0]);
            assert(input@.skip(p3)[0] == input@[p3]);
            assert(input@[p3] == idx[0]);
        }
    }
    if input.len() - *pos < 12 {
        return LZMA_DATA_ERROR;
    }
    let h = vstd::slice::slice_subrange(input, *pos, *pos + 12);
    let header = [h[0], h[1], h[2], h[3], h[4], h[5], h[6], h[7], h[8], h[9], h[10], h[11]];
    assert(header@ =~= input@.subrange(*pos as int, *pos + 12));
    let mut flags = StreamFlags { version: 0, backward_size: LZMA_VLI_UNKNOWN, check: 0 };
    let ret = lzma_stream_header_decode(&mut flags, &header);
    if ret != LZMA_OK {
        return if ret == LZMA_FORMAT_ERROR && !first { LZMA_DATA_ERROR } else { ret };
    }
    if flags.check > LZMA_CHECK_ID_MAX {
        return LZMA_PROG_ERROR;
    }
    assert(header_decode_result(input@.subrange(p0, p0 + 12)) is Ok);
    *pos = *pos + 12;
    let mut ih = lzma_index_hash_init();
    let ghost ih0 = ih@;
    let ghost ihf = IndexHashModel { blocks: hash_info_of(pairs), ..ih0 };
    proof {
        assert(ih0.blocks == empty_info());
        if good && d.len() == 0 {
            assert(ihf == ih0);
        }
    }
    loop
        invariant
            *pos <= input@.len(),
            p0 == *old(pos),
            p0 + 12 <= *pos,
            header_decode_result(input@.subrange(p0, p0 + 12)) is Ok,
            ih.wf(),
            flags.check <= LZMA_CHECK_ID_MAX,
            good ==> flags.check == c,
            good == stored_stream_at(input@, p0, d, c),
            good ==> br == stored_blocks_result(d, c)->Ok_0 && pairs == br.1 && idx == index_field(pairs),
            good ==> p3 == p0 + 12 + br.0.len() && input@[p3] == 0 && pairs_appendable(pairs),
            good ==> p4 == p3 + idx.len() && p4 + 12 <= input@.len() && idx.len() > 0,
            good && d.len() > 0 ==> br.0.len() > 0,
            good && d.len() > 0 ==> stored_block_at(input@, p0 + 12, d, c) && br.0 == stored_res(d, c).2
                && pairs == seq![(unpadded_size_spec(stored_res(d, c).1), d.len() as u64)]
                && input@[p0 + 12] != 0,
            good && d.len() == 0 ==> br.0.len() == 0 && pairs == Seq::<(u64, u64)>::empty(),
            ih0.sequence == SEQ_BLOCK && ih0.blocks == empty_info(),
            ihf == (IndexHashModel { blocks: hash_info_of(pairs), ..ih0 }),
            good ==> ((*pos == p0 + 12 && out@ == out0 && ih@ == ih0) || (d.len() > 0 && *pos == p3
                && out@ == out0 + d && ih@ == ihf)),
        ensures
            *pos < input@.len(),
            input@[*pos as int] == 0,
        decreases input@.len() - *pos,
    {
        if *pos >= input.len() {
            return LZMA_DATA_ERROR;
        }
        if input[*pos] == 0 {
            break;
        }
        let p_before = *pos;
        let (unpadded, uncompressed) = match read_stored_block(input, pos, flags.check, out, Ghost(d)) {
            Ok(x) => x,
            Err(e) => {
                return e;
            },
        };
        if *pos <= p_before {
            return LZMA_PROG_ERROR;
        }
        proof {
            if good {
                assert(pairs.drop_last() =~= Seq::<(u64, u64)>::empty());
                assert(hash_info_of(pairs) == crate::index_hash::info_append(empty_info(), unpadded, uncompressed));
            }
        }
        let ret = lzma_index_hash_append(&mut ih, unpadded, uncompressed);
        if ret != LZMA_OK {
            return ret;
        }
    }
    proof {
        if good {
            if d.len() == 0 {
                assert(hash_info_of(pairs) == empty_info());
                assert(ihf == ih0);
            } else {
                assert(*pos != p0 + 12);
            }
            assert(ih@ == ihf);
            assert(*pos == p3);
            assert(out@ == out0 + d) by {
                if d.len() == 0 {
                    assert(out0 + d =~= out0);
                }
            }
            law_index_hash_size_is_field_size(pairs);
            law_index_hash_accepts_field(pairs, ihf);
            lemma_stream_slices(input@, p0, d, c);
            lemma_ih_run_extend(ihf, idx, input@.skip(p4));
        }
    }
    let expected = lzma_index_hash_size(&ih);
    let mut ip = *pos;
    let ret = lzma_index_hash_decode(&mut ih, input, &mut ip);
    if ip > input.len() {
        return LZMA_PROG_ERROR;
    }
    *pos = ip;
    if ret != LZMA_STREAM_END {
        return if ret == LZMA_OK || ret == LZMA_BUF_ERROR { LZMA_DATA_ERROR } else { ret };
    }
    if input.len() - *pos < 12 {
        return LZMA_DATA_ERROR;
    }
    let f = vstd::slice::slice_subrange(input, *pos, *pos + 12);
    let footer = [f[0], f[1], f[2], f[3], f[4], f[5], f[6], f[7], f[8], f[9], f[10], f[11]];
    assert(footer@ =~= input@.subrange(*pos as int, *pos + 12));
    proof {
        if good {
            law_stream_footer_roundtrip(ff);
        }
    }
    let mut footer_flags = StreamFlags { version: 0, backward_size: LZMA_VLI_UNKNOWN, check: 0 };
    let ret = lzma_stream_footer_decode(&mut footer_flags, &footer);
    if ret != LZMA_OK {
        return if ret == LZMA_FORMAT_ERROR { LZMA_DATA_ERROR } else { ret };
    }
    *pos = *pos + 12;
    if expected != footer_flags.backward_size {
        return LZMA_DATA_ERROR;
    }
    let ret = lzma_stream_flags_compare(&flags, &footer_flags);
    if ret != LZMA_OK {
        return ret;
    }
    LZMA_STREAM_END
}

/// Decodes the .xz Streams that make up `input`, one after another with
/// Stream Padding (zero bytes, a multiple of four) between and after them,
/// into the data of their Blocks. The Blocks must store their data as
/// uncompressed LZMA2 chunks (`LZMA_OPTIONS_ERROR` for other filters or
/// compressed chunks). Each Block's sizes, padding and check, each Index
/// against its Blocks, and each Stream Footer against its header are
/// verified; input that ends early is `LZMA_DATA_ERROR`; the first Stream
/// Header's error (`LZMA_FORMAT_ERROR` for no .xz magic) comes out as it is.
#[verifier::rlimit(100)]
pub fn xz_stored_decode(input: &[u8]) -> (r: Result<Vec<u8>, u32>)
    ensures
        input@.len() < 12 ==> r == Err::<Vec<u8>, u32>(LZMA_DATA_ERROR),
        input@.len() >= 12 ==> (header_decode_result(input@.take(12)) matches Err(e) ==> r
            == Err::<Vec<u8>, u32>(e)),
        forall|d: Seq<u8>, c: u32|
            #[trigger] is_stored_stream(input@, d, c) ==> r_data(r, d),
{
    let ghost ex = exists|d: Seq<u8>, c: u32| is_stored_stream(input@, d, c);
    let ghost dc: (Seq<u8>, u32) = if ex {
        choose|d: Seq<u8>, c: u32| is_stored_stream(input@, d, c)
    } else {
        (Seq::empty(), 0u32)
    };
    let ghost d0 = dc.0;
    let ghost c0 = dc.1;
    proof {
        if ex {
            assert(input@.subrange(0, input@.len() as int) =~= input@);
        }
    }
    let mut out: Vec<u8> = Vec::new();
    let mut pos: usize = 0;
    let mut first = true;
    loop
        invariant
            pos <= input@.len(),
            first ==> pos == 0 && out@ == Seq::<u8>::empty(),
            !first ==> input@.len() >= 12 && header_decode_result(input@.take(12)) is Ok,
            !first ==> !ex,
            !ex ==> forall|d: Seq<u8>, c: u32| !#[trigger] is_stored_stream(input@, d, c),
            ex ==> is_stored_stream(input@, d0, c0) && stored_stream_at(input@, 0, d0, c0),
        decreases input@.len() - pos,
    {
        let p0 = pos;
        proof {
            if first && input@.len() >= 12 {
                assert(input@.take(12) =~= input@.subrange(0, 12));
            }
        }
        let ret = read_stored_stream(input, &mut pos, first, &mut out, Ghost(d0), Ghost(c0));
        if ret != LZMA_STREAM_END {
            return Err(ret);
        }
        proof {
            if ex {
                assert(out@ =~= d0);
            }
        }
        if first && pos >= input.len() {
            proof {
                if ex {
                    assert forall|d: Seq<u8>, c: u32| #[trigger] is_stored_stream(input@, d, c) implies d
                        == d0 by {
                        lemma_stored_stream_injective(input@, d, c, d0, c0);
                    }
                }
            }
            return Ok(out);
        }
        first = false;
        let mut padding: usize = 0;
        while pos < input.len() && input[pos] == 0
            invariant
                pos <= input@.len(),
                pos > p0,
                padding < 4,
            decreases input@.len() - pos,
        {
            pos = pos + 1;
            padding = if padding == 3 { 0 } else { padding + 1 };
        }
        if padding != 0 {
            return Err(LZMA_DATA_ERROR);
        }
        if pos >= input.len() {
            return Ok(out);
        }
    }
}

/// Only one piece of data is stored as a given Stream.
proof fn lemma_stored_stream_injective(input: Seq<u8>, d: Seq<u8>, c: u32, d2: Seq<u8>, c2: u32)
    requires
        is_stored_stream(input, d, c),
        is_stored_stream(input, d2, c2),
    ensures
        d == d2,
{
    assert(input.subrange(0, input.len() as int) =~= input);
    lemma_stream_slices(input, 0, d, c);
    lemma_stream_slices(input, 0, d2, c2);
    let idx1 = index_field(stored_blocks_result(d, c)->Ok_0.1);
    let idx2 = index_field(stored_blocks_result(d2, c2)->Ok_0.1);
    if d.len() == 0 {
        assert(input.skip(12)[0] == idx1[0]);
        assert(idx1[0] == index_list(stored_blocks_result(d, c)->Ok_0.1)[0]);
    }
    if d2.len() == 0 {
        assert(input.skip(12)[0] == idx2[0]);
        assert(idx2[0] == index_list(stored_blocks_result(d2, c2)->Ok_0.1)[0]);
    }
    if d.len() > 0 {
        lemma_block_slices(input, 12, d, c);
    }
    if d2.len() > 0 {
        lemma_block_slices(input, 12, d2, c2);
    }
    if d.len() == 0 && d2.len() == 0 {
        assert(d =~= d2);
    } else if d.len() > 0 && d2.len() > 0 {
        let hs = (input[12] + 1) * 4;
        let k1 = ceil4(stored_res(d, c).1.compressed_size as int) - stored_res(d, c).1.compressed_size;
        let k2 = ceil4(stored_res(d2, c2).1.compressed_size as int) - stored_res(d2, c2).1.compressed_size;
        let w1 = stored_res(d, c).2;
        let w2 = stored_res(d2, c2).2;
        lemma_stored_parse_chunks(d, true, zeros(k1) + check_value(c, d) + input.skip(12 + w1.len() as int));
        lemma_stored_parse_chunks(d2, true, zeros(k2) + check_value(c2, d2) + input.skip(12 + w2.len() as int));
        assert(stored_parse(input.skip(12 + hs), true) == Ok::<(Seq<u8>, nat), u32>(
            (d, stored_chunks(d, true).len() + 1),
        ));
    }
}

/// `input` is the Stream that stores `d` with the check `c`.
pub open spec fn is_stored_stream(input: Seq<u8>, d: Seq<u8>, c: u32) -> bool {
    &&& d.len() < sha256_len_limit()
    &&& stored_stream_result(d, c) == Ok::<Seq<u8>, u32>(input)
}

/// `r` is the data `d`.
pub open spec fn r_data(r: Result<Vec<u8>, u32>, d: Seq<u8>) -> bool {
    r matches Ok(v) && v@ == d
}

/// The one Block of the Stream for non-empty `data` can be appended to an
/// Index hash.
#[verifier::spinoff_prover]
proof fn lemma_stored_pairs_appendable(data: Seq<u8>, check: u32)
    requires
        data.len() > 0,
        data.len() < sha256_len_limit(),
        stored_blocks_result(data, check) is Ok,
    ensures
        pairs_appendable(stored_blocks_result(data, check)->Ok_0.1),
{
    let res = stored_res(data, check);
    lemma_stored_block_shape(data, check);
    lemma_lzma2_stored_len(data);
    lemma_stored_block_layout(data, check, Seq::empty());
    let u = unpadded_size_spec(res.1);
    let pairs = stored_blocks_result(data, check)->Ok_0.1;
    assert(pairs == seq![(u, data.len() as u64)]);
    assert(pairs.drop_last() =~= Seq::<(u64, u64)>::empty());
    assert(hash_info_of(pairs.drop_last()) == empty_info());
    crate::vli::lemma_vli_size_bounds(u);
    crate::vli::lemma_vli_size_bounds(data.len() as u64);
    crate::vli::lemma_vli_size_bounds(1);
    assert(u != 0 && u <= LZMA_VLI_MAX);
    assert(res.1.compressed_size != LZMA_VLI_UNKNOWN);
    assert(crate::block::block_fields_valid(res.1));
    assert(res.1.header_size <= 1024);
    assert(u == res.1.compressed_size + res.1.header_size + check_size_spec(check));
    assert(res.1.compressed_size == lzma2_bound_spec(data.len() as u64));
    assert(pairs_appendable(pairs.drop_last()));
    assert(UNPADDED_SIZE_MIN <= u <= UNPADDED_SIZE_MAX);
    assert(ceil4(u as int) <= LZMA_VLI_MAX);
    assert(crate::index_size::index_size(1, (vli_size_spec(u) + vli_size_spec(data.len() as u64)) as u64) <= 40);
    assert(info_append_fits(empty_info(), u, data.len() as u64));
}

/// Where the parts of the Stream for `d` lie in the input that holds it at
/// `p0`: the Stream Header, the Block (if any), the Index and the Stream
/// Footer.
proof fn lemma_stream_slices(input: Seq<u8>, p0: int, d: Seq<u8>, c: u32)
    requires
        stored_stream_at(input, p0, d, c),
    ensures
        ({
            let s = stored_stream_result(d, c)->Ok_0;
            let br = stored_blocks_result(d, c)->Ok_0;
            let idx = index_field(br.1);
            let ff = stream_flags_of(c, idx.len() as u64);
            let p3 = p0 + 12 + br.0.len();
            let p4 = p3 + idx.len();
            &&& c <= LZMA_CHECK_ID_MAX
            &&& backward_size_valid(ff)
            &&& input.subrange(p0, p0 + 12) == header_bytes(stream_flags_of(c, 0))
            &&& d.len() > 0 ==> stored_block_at(input, p0 + 12, d, c) && br.0 == stored_res(d, c).2
                && br.1 == seq![(unpadded_size_spec(stored_res(d, c).1), d.len() as u64)]
            &&& d.len() == 0 ==> br.0.len() == 0 && br.1 == Seq::<(u64, u64)>::empty()
            &&& input.skip(p3) == idx + input.skip(p4)
            &&& input.subrange(p4, p4 + 12) == footer_bytes(ff)
            &&& p4 + 12 == p0 + s.len()
            &&& p4 + 12 <= input.len()
        }),
{
    let s = stored_stream_result(d, c)->Ok_0;
    let br = stored_blocks_result(d, c)->Ok_0;
    let idx = index_field(br.1);
    let ff = stream_flags_of(c, idx.len() as u64);
    let hb = header_bytes(stream_flags_of(c, 0));
    let fb = footer_bytes(ff);
    assert(s == hb + br.0 + idx + fb);
    let p3 = p0 + 12 + br.0.len();
    let p4 = p3 + idx.len();
    assert(input.subrange(p0, p0 + s.len()) == s);
    assert(input.subrange(p0, p0 + 12) =~= s.subrange(0, 12));
    assert(s.subrange(0, 12) =~= hb);
    if d.len() > 0 {
        assert(input.subrange(p0 + 12, p0 + 12 + br.0.len()) =~= s.subrange(12, 12 + br.0.len() as int));
        assert(s.subrange(12, 12 + br.0.len() as int) =~= br.0);
    }
    assert(input.skip(p3) =~= idx + input.skip(p4)) by {
        assert forall|j: int| 0 <= j < idx.len() implies input[p3 + j] == idx[j] by {
            assert(input[p3 + j] == input.subrange(p0, p0 + s.len())[p3 + j - p0]);
        }
    }
    assert(input.subrange(p4, p4 + 12) =~= s.subrange(p4 - p0, p4 - p0 + 12));
    assert(s.subrange(p4 - p0, p4 - p0 + 12) =~= fb);
}

/// `input` holds at `pos` the Stream that stores `d` with the check `c`.
pub open spec fn stored_stream_at(input: Seq<u8>, pos: int, d: Seq<u8>, c: u32) -> bool {
    &&& d.len() < sha256_len_limit()
    &&& stored_stream_result(d, c) is Ok
    &&& 0 <= pos
    &&& pos + stored_stream_result(d, c)->Ok_0.len() <= input.len()
    &&& input.subrange(pos, pos + stored_stream_result(d, c)->Ok_0.len()) == stored_stream_result(
        d,
        c,
    )->Ok_0
}

/// The stored form of `data` is of a size the format can hold, and its
/// bound fits the machine's buffers.
pub open spec fn stored_size_ok(data: Seq<u8>) -> bool {
    data.len() == 0 || (lzma2_bound_spec(data.len() as u64) != 0 && block_bound_spec(
        data.len() as u64,
    ) <= usize::MAX)
}

/// The Block encoder stores any non-empty data whose stored form the
/// format can hold, with a check this library supports, in a buffer of the
/// bound's size.
proof fn lemma_stored_res_ok(data: Seq<u8>, check: u32)
    requires
        data.len() > 0,
        check_supported_spec(check),
        lzma2_bound_spec(data.len() as u64) != 0,
        block_bound_spec(data.len() as u64) <= usize::MAX,
    ensures
        stored_res(data, check).0 == LZMA_OK,
        unpadded_size_spec(stored_res(data, check).1) != 0,
        unpadded_size_spec(stored_res(data, check).1) <= UNPADDED_SIZE_MAX,
{
    reveal(stored_res);
    reveal(crate::block_buffer_encoder::stored_header_size);
    reveal(crate::block_buffer_encoder::stored_header);
    let len = data.len() as u64;
    let b = stored_block_start(check);
    let cs = lzma2_bound_spec(len);
    let bound = block_bound_spec(len) as int;
    assert(bound == 92 + ceil4(cs as int));
    assert(ceil4(cs as int) % 4 == 0 && ceil4(cs as int) >= cs);
    assert(bound % 4 == 0);
    let cks = check_size_spec(check) as int;
    assert(cks <= 64);
    assert(cs <= crate::types::COMPRESSED_SIZE_MAX);
    let b1 = lzma_block { uncompressed_size: len, compressed_size: cs, ..b };
    crate::block_buffer_encoder::lemma_stored_header_size(b1);
    let sb1 = crate::block_buffer_encoder::stored_block(b1);
    let fs = sb1.filters@;
    let lz = crate::block_buffer_encoder::stored_lzma2();
    assert(fs[0] == lz);
    assert(fs[1] == end_filter());
    assert(crate::vli::vli_encoding(0x21u64).len() == 1);
    assert(crate::vli::vli_encoding(1u64).len() == 1);
    assert(vli_size_spec(0x21u64) == 1);
    assert(vli_size_spec(1u64) == 1);
    assert(crate::filter_flags::filter_flags_size_spec(lz) == Ok::<nat, u32>(3));
    reveal_with_fuel(crate::block_header::flags_size_from, 2);
    assert(crate::block_header::flags_size_from(fs, 1) == Ok::<nat, u32>(0));
    assert(crate::block_header::flags_size_from(fs, 0) == Ok::<nat, u32>(3));
    crate::vli::lemma_vli_size_bounds(cs);
    crate::vli::lemma_vli_size_bounds(len);
    let hs = header_size_result(sb1)->Ok_0;
    assert(hs == ceil4((6 + opt_vli_size(cs) + opt_vli_size(len) + 3) as int));
    assert(12 <= hs <= 28);
    let b2 = lzma_block { header_size: hs, ..b1 };
    let sb = crate::block_buffer_encoder::stored_block(b2);
    assert(crate::block::block_fields_valid(sb));
    assert(crate::block::block_fields_valid(b2));
    assert(cs + hs + cks <= UNPADDED_SIZE_MAX);
    assert(unpadded_size_spec(sb) != 0);
    let room = hs - 4 - 2 - opt_vli_size(cs) - opt_vli_size(len);
    assert(room >= 3);
    let fb = crate::filter_flags::filter_flags_bytes(lz);
    assert(fb is Ok);
    assert(fb->Ok_0.len() == 3);
    assert(sb.filters@ == fs);
    assert(flags_encode_from(fs, 0, room) is Ok);
    assert(header_encode_result(sb, bound - cks) is Ok);
}

/// Storing data of a size the format can hold, with a check this library
/// supports, always gives a Stream, and that Stream is one that
/// `xz_stored_decode` decodes back to the data: the encoding writer's
/// `finish` fails only when its inner writer refuses the Stream.
pub proof fn law_stored_stream_ok(data: Seq<u8>, check: u32)
    requires
        check_supported_spec(check),
        data.len() < sha256_len_limit(),
        stored_size_ok(data),
    ensures
        stored_stream_result(data, check) is Ok,
        is_stored_stream(stored_stream_result(data, check)->Ok_0, data, check),
{
    if data.len() > 0 {
        lemma_stored_res_ok(data, check);
        assert(stored_blocks_result(data, check) is Ok);
        lemma_stored_pairs_appendable(data, check);
    } else {
        assert(stored_blocks_result(data, check)->Ok_0.1 =~= Seq::<(u64, u64)>::empty());
    }
    let pairs = stored_blocks_result(data, check)->Ok_0.1;
    lemma_appendable(pairs);
    law_index_hash_size_is_field_size(pairs);
    let idx = index_field(pairs);
    assert(idx.len() == crate::index_size::index_size(
        pairs.len() as u64,
        crate::index_encoder::list_size_of(pairs) as u64,
    ));
    assert(idx.len() % 4 == 0);
    assert(idx.len() >= 4);
    assert(backward_size_valid(stream_flags_of(check, idx.len() as u64)));
}

} // verus!
