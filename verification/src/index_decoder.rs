//! Decoding a whole Index field from a buffer into an Index of one Stream.
use vstd::prelude::*;
use crate::crc::{crc32, crc32_of};
use crate::index::{
    index_record, index_tree_node_s, lzma_index_append, lzma_index_init, lzma_index_memusage,
    lzma_index_padding_size, lzma_index_prealloc, lzma_index_s, lzma_index_uncompressed_size,
    memusage_spec, unknown_flags, append_result, stream_uncompressed, stream_unpadded_sum,
    sum_uncompressed,
};
use crate::index_hash::padding_of;
use crate::index_size::index_size;
use crate::types::{
    ceil4, le32_bytes, write32le, INDEX_INDICATOR, LZMA_BACKWARD_SIZE_MAX, LZMA_DATA_ERROR,
    LZMA_MEMLIMIT_ERROR, LZMA_OK, LZMA_PROG_ERROR, LZMA_STREAM_HEADER_SIZE, LZMA_VLI_MAX,
    UNPADDED_SIZE_MAX, UNPADDED_SIZE_MIN,
};
use crate::vli::{lemma_vli_run_bound, lemma_vli_run_used, lzma_vli_decode, vli_run, vli_size_spec, VliRun};

verus! {

/// The variable-length integer at the start of `s`: its value and length,
/// when it is complete and validly encoded.
pub open spec fn vli_field(s: Seq<u8>) -> Option<(u64, nat)> {
    match vli_run(0, 0, s) {
        VliRun::Complete { value, used } => Some((value, used)),
        _ => None,
    }
}

/// Size of the List of Records that holds the (Unpadded Size, uncompressed
/// size) pairs `pairs`.
pub open spec fn list_of_pairs(pairs: Seq<(u64, u64)>) -> nat
    decreases pairs.len(),
{
    if pairs.len() == 0 {
        0
    } else {
        list_of_pairs(pairs.drop_last()) + vli_size_spec(pairs.last().0) + vli_size_spec(
            pairs.last().1,
        )
    }
}

/// The Records (running sums) of the Blocks whose (Unpadded Size,
/// uncompressed size) are `pairs`.
pub open spec fn records_of_pairs(pairs: Seq<(u64, u64)>) -> Seq<index_record>
    decreases pairs.len(),
{
    if pairs.len() == 0 {
        Seq::empty()
    } else {
        let prev = records_of_pairs(pairs.drop_last());
        let pu: int = if prev.len() == 0 {
            0
        } else {
            prev.last().uncompressed_sum as int
        };
        let pc: int = if prev.len() == 0 {
            0
        } else {
            ceil4(prev.last().unpadded_sum as int)
        };
        prev.push(
            index_record {
                uncompressed_sum: (pu + pairs.last().1) as u64,
                unpadded_sum: (pc + pairs.last().0) as u64,
            },
        )
    }
}

/// One more Block of Unpadded Size `u` and uncompressed size `c` fits in a
/// single-Stream Index holding `pairs`: the Stream, the file and the Index
/// stay within their limits.
pub open spec fn pairs_append_ok(pairs: Seq<(u64, u64)>, u: u64, c: u64) -> bool {
    let recs = records_of_pairs(pairs);
    let ub: int = if recs.len() == 0 {
        0
    } else {
        recs.last().uncompressed_sum as int
    };
    let cb: int = ceil4(
        if recs.len() == 0 {
            0
        } else {
            recs.last().unpadded_sum as int
        },
    );
    let n = pairs.len();
    let add = vli_size_spec(u) + vli_size_spec(c);
    let isz = index_size((n + 1) as u64, (list_of_pairs(pairs) + add) as u64);
    &&& ub + c <= LZMA_VLI_MAX
    &&& cb + u <= UNPADDED_SIZE_MAX
    &&& 2 * LZMA_STREAM_HEADER_SIZE + ceil4(cb + u) + isz <= LZMA_VLI_MAX
    &&& isz <= LZMA_BACKWARD_SIZE_MAX
}

/// Reads `n` more Records from `s` after the Blocks `pairs`: the Blocks
/// then known and the number of bytes read, or `None` when a Record is
/// truncated, corrupt, out of range or does not fit.
pub open spec fn records_read(pairs: Seq<(u64, u64)>, n: nat, s: Seq<u8>) -> Option<
    (Seq<(u64, u64)>, nat),
>
    decreases n,
{
    if n == 0 {
        Some((pairs, 0))
    } else {
        match vli_field(s) {
            None => None,
            Some((u, a)) => if u < UNPADDED_SIZE_MIN || u > UNPADDED_SIZE_MAX {
                None
            } else {
                match vli_field(s.skip(a as int)) {
                    None => None,
                    Some((c, b)) => if !pairs_append_ok(pairs, u, c) {
                        None
                    } else {
                        match records_read(pairs.push((u, c)), (n - 1) as nat, s.skip((a + b) as int)) {
                            None => None,
                            Some((p, k)) => Some((p, k + a + b)),
                        }
                    },
                }
            },
        }
    }
}

/// The Index Padding of `pad` bytes at `p` is there and zero.
pub open spec fn padding_zero(s: Seq<u8>, p: nat, pad: nat) -> bool {
    &&& p + pad <= s.len()
    &&& forall|j: int| p <= j < p + pad ==> s[j] == 0
}

/// The memory limit the decoder works with: at least one byte.
pub open spec fn effective_memlimit(memlimit: u64) -> u64 {
    if memlimit < 1 { 1 } else { memlimit }
}

/// Decoding the Index field at the start of `s` under `memlimit`: the
/// Blocks it lists and its length, or the error: `LZMA_MEMLIMIT_ERROR` when
/// its Number of Records needs more memory than allowed, `LZMA_DATA_ERROR`
/// when it is truncated or corrupt.
pub open spec fn index_decode_result(s: Seq<u8>, memlimit: u64) -> Result<
    (Seq<(u64, u64)>, nat),
    u32,
> {
    if s.len() == 0 || s[0] != INDEX_INDICATOR {
        Err(LZMA_DATA_ERROR)
    } else {
        match vli_field(s.drop_first()) {
            None => Err(LZMA_DATA_ERROR),
            Some((count, a)) => if memusage_spec(1, count) > effective_memlimit(memlimit) {
                Err(LZMA_MEMLIMIT_ERROR)
            } else {
                match records_read(Seq::empty(), count as nat, s.skip((1 + a) as int)) {
                    None => Err(LZMA_DATA_ERROR),
                    Some((pairs, b)) => {
                        let p = 1 + a + b;
                        let pad = padding_of(count, list_of_pairs(pairs) as u64);
                        if !padding_zero(s, p, pad) || s.len() < p + pad + 4 || s.subrange(
                            (p + pad) as int,
                            (p + pad + 4) as int,
                        ) != le32_bytes(crc32_of(s.take((p + pad) as int), 0)) {
                            Err(LZMA_DATA_ERROR)
                        } else {
                            Ok((pairs, p + pad + 4))
                        }
                    },
                }
            },
        }
    }
}

/// The memory limit after a decoding that failed for it: what the Index
/// would need.
pub open spec fn memlimit_needed(s: Seq<u8>) -> u64 {
    match vli_field(s.drop_first()) {
        Some((count, _)) => memusage_spec(1, count),
        None => 0,
    }
}

/// `i` is the Index of one Stream, at the start of the file, whose Blocks
/// are `pairs`, with no Stream Flags or Stream Padding set yet.
pub open spec fn index_holds(i: lzma_index_s, pairs: Seq<(u64, u64)>) -> bool {
    &&& i.wf()
    &&& i.streams@.len() == 1
    &&& i.last_stream().records@ == records_of_pairs(pairs)
    &&& i.last_stream().record_count == pairs.len()
    &&& i.last_stream().index_list_size == list_of_pairs(pairs)
    &&& i.last_stream().node == (index_tree_node_s { uncompressed_base: 0, compressed_base: 0 })
    &&& i.last_stream().stream_padding == 0
    &&& unknown_flags(i.last_stream().stream_flags)
    &&& i.record_count == pairs.len()
    &&& i.index_list_size == list_of_pairs(pairs)
    &&& i.checks == 0
}

pub proof fn lemma_records_len(pairs: Seq<(u64, u64)>)
    ensures
        records_of_pairs(pairs).len() == pairs.len(),
    decreases pairs.len(),
{
    if pairs.len() > 0 {
        lemma_records_len(pairs.drop_last());
    }
}

/// Appending to an Index that holds `pairs` succeeds exactly when the Block
/// fits, and fails with `LZMA_DATA_ERROR` otherwise.
pub proof fn lemma_append_result(i: lzma_index_s, pairs: Seq<(u64, u64)>, u: u64, c: u64)
    requires
        index_holds(i, pairs),
        UNPADDED_SIZE_MIN <= u <= UNPADDED_SIZE_MAX,
        c <= LZMA_VLI_MAX,
    ensures
        append_result(i, u, c) == (if pairs_append_ok(pairs, u, c) {
            LZMA_OK
        } else {
            LZMA_DATA_ERROR
        }),
{
    lemma_records_len(pairs);
}

/// Reads one complete variable-length integer at `*pos`.
fn read_vli(input: &[u8], pos: &mut usize) -> (r: Option<u64>)
    requires
        *old(pos) <= input@.len(),
    ensures
        match vli_field(input@.skip(*old(pos) as int)) {
            Some((v, used)) => r == Some(v) && *final(pos) == *old(pos) + used && v
                <= LZMA_VLI_MAX && 1 <= used && *old(pos) + used <= input@.len(),
            None => r is None,
        },
{
    let ghost s = input@.skip(*pos as int);
    proof {
        lemma_vli_run_used(0, 0, s);
        crate::vli::lemma_vli_start_bound(s);
    }
    if *pos >= input.len() {
        return None;
    }
    let mut v: u64 = 0;
    let ret = lzma_vli_decode(&mut v, None, input, pos);
    if ret == LZMA_OK {
        Some(v)
    } else {
        None
    }
}

/// Reads the `count` Records of a List into `index`, which holds no Blocks.
fn decode_records(index: &mut lzma_index_s, input: &[u8], pos: &mut usize, count: u64) -> (ok: bool)
    requires
        index_holds(*old(index), Seq::empty()),
        *old(pos) <= input@.len(),
    ensures
        match records_read(Seq::empty(), count as nat, input@.skip(*old(pos) as int)) {
            None => !ok,
            Some((p, k)) => ok && index_holds(*final(index), p) && *final(pos) == *old(pos) + k
                && p.len() == count && *final(pos) <= input@.len(),
        },
{
    let in_size = input.len();
    let rec_start = *pos;
    let ghost whole = records_read(Seq::empty(), count as nat, input@.skip(rec_start as int));
    let ghost mut pairs: Seq<(u64, u64)> = Seq::empty();
    let mut remaining = count;
    while remaining > 0
        invariant
            in_size == input@.len(),
            rec_start == *old(pos),
            whole == records_read(Seq::empty(), count as nat, input@.skip(rec_start as int)),
            rec_start <= *pos <= in_size,
            index_holds(*index, pairs),
            pairs.len() + remaining == count,
            whole == (match records_read(pairs, remaining as nat, input@.skip(*pos as int)) {
                None => None,
                Some((p, k)) => Some((p, (k + (*pos - rec_start)) as nat)),
            }),
        decreases remaining,
    {
        let ghost pos0 = *pos;
        let ghost t = input@.skip(*pos as int);
        let u = match read_vli(input, pos) {
            Some(v) => v,
            None => {
                assert(records_read(pairs, remaining as nat, t) is None);
                return false;
            },
        };
        if u < UNPADDED_SIZE_MIN || u > UNPADDED_SIZE_MAX {
            assert(records_read(pairs, remaining as nat, t) is None);
            return false;
        }
        let ghost pos1 = *pos;
        proof {
            assert(input@.skip(*pos as int) =~= t.skip((pos1 - pos0) as int));
        }
        let c = match read_vli(input, pos) {
            Some(v) => v,
            None => {
                return false;
            },
        };
        proof {
            lemma_append_result(*index, pairs, u, c);
        }
        let ret = lzma_index_append(index, u, c);
        if ret != LZMA_OK {
            return false;
        }
        proof {
            assert(input@.skip(*pos as int) =~= t.skip((*pos - pos0) as int));
            let np = pairs.push((u, c));
            assert(np.drop_last() =~= pairs);
            lemma_records_len(pairs);
            pairs = np;
        }
        remaining = remaining - 1;
    }
    true
}

/// The `pad` bytes at `pos` are there and zero.
fn zero_run(input: &[u8], pos: usize, pad: u32) -> (ok: bool)
    requires
        pos <= input@.len(),
    ensures
        ok == (pos + pad <= input@.len() && forall|j: int| pos <= j < pos + pad ==> input@[j] == 0),
{
    let mut k: u32 = 0;
    while k < pad
        invariant
            pos <= input@.len(),
            k <= pad,
            pos + k <= input@.len(),
            forall|j: int| pos <= j < pos + k ==> input@[j] == 0,
        decreases pad - k,
    {
        if (k as usize) >= input.len() - pos {
            return false;
        }
        if input[pos + k as usize] != 0 {
            return false;
        }
        k = k + 1;
    }
    true
}

/// Decodes an Index field from `input` at `*in_pos` into an Index of one
/// Stream, its Stream Flags and Stream Padding not set.
///
/// On success `*in_pos` is moved past the field and `*memlimit` kept. On
/// failure `*in_pos` is left where it was; for `LZMA_MEMLIMIT_ERROR`,
/// `*memlimit` is set to the memory the Index would need. `LZMA_PROG_ERROR`
/// is returned when `*in_pos` is past the end of `input`.
#[verifier::rlimit(40)]
pub fn lzma_index_buffer_decode(memlimit: &mut u64, input: &[u8], in_pos: &mut usize) -> (r: Result<
    lzma_index_s,
    u32,
>)
    ensures
        ({
            let start = *old(in_pos);
            if start > input@.len() {
                r == Err::<lzma_index_s, u32>(LZMA_PROG_ERROR) && *final(in_pos) == start
                    && *final(memlimit) == *old(memlimit)
            } else {
                let s = input@.skip(start as int);
                match index_decode_result(s, *old(memlimit)) {
                    Ok((pairs, used)) => {
                        &&& r matches Ok(i) && index_holds(i, pairs)
                        &&& *final(in_pos) == start + used
                        &&& *final(memlimit) == *old(memlimit)
                    },
                    Err(e) => {
                        &&& r == Err::<lzma_index_s, u32>(e)
                        &&& *final(in_pos) == start
                        &&& *final(memlimit) == (if e == LZMA_MEMLIMIT_ERROR {
                            memlimit_needed(s)
                        } else {
                            *old(memlimit)
                        })
                    },
                }
            }
        }),
{
    let in_size = input.len();
    if *in_pos > in_size {
        return Err(LZMA_PROG_ERROR);
    }
    let start = *in_pos;
    let ghost s = input@.skip(start as int);
    if start == in_size || input[start] != INDEX_INDICATOR {
        return Err(LZMA_DATA_ERROR);
    }
    let mut pos = start + 1;
    proof {
        assert(input@.skip(pos as int) =~= s.drop_first());
    }
    let count = match read_vli(input, &mut pos) {
        Some(v) => v,
        None => {
            return Err(LZMA_DATA_ERROR);
        },
    };
    let limit = if *memlimit < 1 {
        1
    } else {
        *memlimit
    };
    let need = lzma_index_memusage(1, count);
    if need > limit {
        *memlimit = need;
        return Err(LZMA_MEMLIMIT_ERROR);
    }
    let mut index = lzma_index_init();
    lzma_index_prealloc(&mut index, count);
    proof {
        assert(index.last_stream().records@ =~= records_of_pairs(Seq::empty()));
        assert(s.skip((pos - start) as int) =~= input@.skip(pos as int));
    }
    if !decode_records(&mut index, input, &mut pos, count) {
        return Err(LZMA_DATA_ERROR);
    }
    let pad = lzma_index_padding_size(&index);
    let p_rel = pos - start;
    if !zero_run(input, pos, pad) {
        proof {
            if padding_zero(s, p_rel as nat, pad as nat) {
                assert forall|j: int| pos <= j < pos + pad implies input@[j] == 0 by {
                    assert(s[j - start] == input@[j]);
                }
            }
        }
        return Err(LZMA_DATA_ERROR);
    }
    proof {
        assert forall|j: int| p_rel <= j < p_rel + pad implies s[j] == 0 by {
            assert(s[j] == input@[j + start]);
        }
    }
    let body_end = pos + pad as usize;
    if in_size - body_end < 4 {
        return Err(LZMA_DATA_ERROR);
    }
    let body = vstd::slice::slice_subrange(input, start, body_end);
    let crc = crc32(body, 0);
    let expected = write32le(crc);
    proof {
        assert(body@ =~= s.take((body_end - start) as int));
    }
    if input[body_end] != expected[0] || input[body_end + 1] != expected[1] || input[body_end + 2]
        != expected[2] || input[body_end + 3] != expected[3] {
        proof {
            let w = s.subrange((body_end - start) as int, (body_end - start + 4) as int);
            assert(w[0] == input@[body_end as int]);
            assert(w[1] == input@[body_end + 1]);
            assert(w[2] == input@[body_end + 2]);
            assert(w[3] == input@[body_end + 3]);
        }
        return Err(LZMA_DATA_ERROR);
    }
    proof {
        assert(s.subrange((body_end - start) as int, (body_end - start + 4) as int) =~= expected@);
    }
    *in_pos = body_end + 4;
    Ok(index)
}

/// Total uncompressed size of the Blocks `pairs`.
pub open spec fn pairs_uncompressed(pairs: Seq<(u64, u64)>) -> int {
    if pairs.len() == 0 {
        0
    } else {
        records_of_pairs(pairs).last().uncompressed_sum as int
    }
}

proof fn lemma_holds_uncompressed(i: lzma_index_s, pairs: Seq<(u64, u64)>)
    requires
        index_holds(i, pairs),
    ensures
        i.uncompressed_size == pairs_uncompressed(pairs),
{
    reveal(lzma_index_s::wf);
    lemma_records_len(pairs);
    let ss = i.streams@;
    assert(ss.drop_last().len() == 0);
    assert(sum_uncompressed(ss) == sum_uncompressed(ss.drop_last()) + stream_uncompressed(ss.last()));
}

/// Decodes the Index field at the start of `buf`, with no memory limit, and
/// returns the uncompressed size of the Blocks it lists.
pub fn index_uncompressed_size(buf: &[u8]) -> (r: Result<u64, u32>)
    ensures
        match index_decode_result(buf@, u64::MAX) {
            Ok((pairs, _)) => r == Ok::<u64, u32>(pairs_uncompressed(pairs) as u64),
            Err(e) => r == Err::<u64, u32>(e),
        },
{
    let mut memlimit = u64::MAX;
    let mut pos: usize = 0;
    proof {
        assert(buf@.skip(0) =~= buf@);
    }
    match lzma_index_buffer_decode(&mut memlimit, buf, &mut pos) {
        Ok(i) => {
            proof {
                let pairs = index_decode_result(buf@, u64::MAX)->Ok_0.0;
                lemma_holds_uncompressed(i, pairs);
            }
            Ok(lzma_index_uncompressed_size(&i))
        },
        Err(e) => Err(e),
    }
}

} // verus!
