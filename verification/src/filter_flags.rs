//! Filter Flags: how a filter and its properties are written in a Block
//! Header.
use vstd::prelude::*;
use crate::filter::{
    is_bcj_id, is_known_id, is_lzma_id, law_properties_roundtrip, lzma_properties_decode,
    lzma_properties_encode, lzma_properties_size, props_canonical, props_decoded, props_encoding,
    Filter, FilterOptions, LZMA_FILTER_RESERVED_START,
};
use crate::types::{
    LZMA_DATA_ERROR, LZMA_FILTER_DELTA, LZMA_FILTER_LZMA2, LZMA_OK, LZMA_OPTIONS_ERROR,
    LZMA_PROG_ERROR, LZMA_VLI_MAX,
};
use crate::vli::{
    law_vli_roundtrip, lemma_vli_run_used, lemma_vli_size_bounds, lzma_vli_decode,
    lzma_vli_encode, lzma_vli_size, vli_encoding, vli_run, vli_size_spec, VliRun,
};

verus! {

/// Size of the Filter Properties of a known filter, as
/// `lzma_properties_size` reports it.
pub open spec fn props_size_spec(f: Filter) -> nat {
    if is_lzma_id(f.id) {
        if f.id == LZMA_FILTER_LZMA2 {
            1
        } else {
            5
        }
    } else if f.id == LZMA_FILTER_DELTA {
        1
    } else {
        match f.options {
            FilterOptions::Bcj { start_offset } => if start_offset == 0 {
                0
            } else {
                4
            },
            _ => 0,
        }
    }
}

/// Size of the Filter Flags of `f`, or the error code.
pub open spec fn filter_flags_size_spec(f: Filter) -> Result<nat, u32> {
    if f.id >= LZMA_FILTER_RESERVED_START {
        Err(LZMA_PROG_ERROR)
    } else if !is_known_id(f.id) {
        Err(LZMA_OPTIONS_ERROR)
    } else {
        Ok(vli_size_spec(f.id) + vli_size_spec(props_size_spec(f) as u64) + props_size_spec(f))
    }
}

/// The Filter Flags bytes of `f`: its ID, the size of its properties and the
/// properties; or the error code.
pub open spec fn filter_flags_bytes(f: Filter) -> Result<Seq<u8>, u32> {
    if f.id >= LZMA_FILTER_RESERVED_START {
        Err(LZMA_PROG_ERROR)
    } else if !is_known_id(f.id) {
        Err(LZMA_OPTIONS_ERROR)
    } else {
        match props_encoding(f) {
            Ok(p) => Ok(vli_encoding(f.id) + vli_encoding(p.len() as u64) + p),
            Err(e) => Err(e),
        }
    }
}

/// Computes the size of the Filter Flags of `filter`.
pub fn lzma_filter_flags_size(size: &mut u32, filter: &Filter) -> (ret: u32)
    ensures
        match filter_flags_size_spec(*filter) {
            Ok(n) => ret == LZMA_OK && *final(size) == n,
            Err(e) => ret == e,
        },
{
    if filter.id >= LZMA_FILTER_RESERVED_START {
        return LZMA_PROG_ERROR;
    }
    let ret = lzma_properties_size(size, filter);
    if ret != LZMA_OK {
        return ret;
    }
    proof {
        lemma_vli_size_bounds(filter.id);
        lemma_vli_size_bounds(*size as u64);
    }
    *size = *size + lzma_vli_size(filter.id) + lzma_vli_size(*size as u64);
    LZMA_OK
}

/// Writes the Filter Flags of `filter` into `out` at `*out_pos`, advancing
/// it. On `LZMA_OK` the bytes are those of `filter_flags_bytes`; an
/// unknown filter gives `LZMA_OPTIONS_ERROR`, too little room or invalid
/// options `LZMA_PROG_ERROR`.
pub fn lzma_filter_flags_encode(filter: &Filter, out: &mut [u8], out_pos: &mut usize) -> (ret: u32)
    ensures
        final(out)@.len() == old(out)@.len(),
        ({
            let start = *old(out_pos);
            match filter_flags_bytes(*filter) {
                Ok(b) => if start + b.len() <= old(out)@.len() {
                    &&& ret == LZMA_OK
                    &&& *final(out_pos) == start + b.len()
                    &&& final(out)@ == old(out)@.take(start as int) + b + old(out)@.skip(start + b.len())
                } else {
                    ret == LZMA_PROG_ERROR
                },
                Err(e) => ret == (if e == LZMA_OPTIONS_ERROR && start + vli_size_spec(filter.id)
                    <= old(out)@.len() {
                    LZMA_OPTIONS_ERROR
                } else {
                    LZMA_PROG_ERROR
                }),
            }
        }),
{
    let ghost o0 = out@;
    let ghost start = *out_pos;
    if filter.id >= LZMA_FILTER_RESERVED_START {
        return LZMA_PROG_ERROR;
    }
    let ret = lzma_vli_encode(filter.id, None, out, out_pos);
    if ret != LZMA_OK {
        proof {
            lemma_vli_size_bounds(filter.id);
        }
        return ret;
    }
    let mut props_size: u32 = 0;
    let ret = lzma_properties_size(&mut props_size, filter);
    if ret != LZMA_OK {
        return ret;
    }
    let ghost o1 = out@;
    let ghost p1 = *out_pos;
    let ret = lzma_vli_encode(props_size as u64, None, out, out_pos);
    if ret != LZMA_OK {
        proof {
            lemma_vli_size_bounds(props_size as u64);
        }
        return LZMA_PROG_ERROR;
    }
    let n = props_size as usize;
    if out.len() - *out_pos < n {
        return LZMA_PROG_ERROR;
    }
    let mut tmp: Vec<u8> = Vec::new();
    let mut k: usize = 0;
    while k < n
        invariant
            k <= n,
            tmp@.len() == k,
        decreases n - k,
    {
        tmp.push(0);
        k = k + 1;
    }
    let ret = lzma_properties_encode(filter, tmp.as_mut_slice());
    if ret != LZMA_OK {
        return ret;
    }
    let ghost o2 = out@;
    let pos = *out_pos;
    let olen = out.len();
    let mut k: usize = 0;
    while k < n
        invariant
            k <= n,
            n == tmp@.len(),
            olen == out@.len(),
            pos + n <= olen,
            out@.len() == o2.len(),
            forall|j: int| 0 <= j < pos ==> #[trigger] out@[j] == o2[j],
            forall|j: int| pos + k <= j < o2.len() ==> #[trigger] out@[j] == o2[j],
            forall|j: int| 0 <= j < k ==> #[trigger] out@[pos + j] == tmp@[j],
        decreases n - k,
    {
        out[pos + k] = tmp[k];
        k = k + 1;
    }
    *out_pos = pos + n;
    proof {
        let b = filter_flags_bytes(*filter)->Ok_0;
        let e1 = vli_encoding(filter.id);
        let e2 = vli_encoding(props_size as u64);
        let p = props_encoding(*filter)->Ok_0;
        assert(tmp@ == p);
        assert(b =~= e1 + e2 + p);
        assert(p1 == start + e1.len());
        assert(pos == p1 + e2.len());
        let expected = o0.take(start as int) + b + o0.skip(start + b.len());
        assert forall|j: int| 0 <= j < o0.len() implies #[trigger] out@[j] == expected[j] by {
            if j < start {
            } else if j < p1 {
                assert(o1[j] == e1[j - start]);
                assert(o2[j] == o1[j]);
            } else if j < pos {
                assert(o2[j] == e2[j - p1]);
            } else if j < pos + n {
                assert(out@[pos + (j - pos)] == tmp@[j - pos]);
            } else {
                assert(o2[j] == o1[j]);
                assert(o1[j] == o0[j]);
            }
        }
        assert(out@ =~= expected);
    }
    LZMA_OK
}

/// A VLI read in one call at `pos` of `s`: its value and the position after
/// it, or `None` for an invalid or truncated integer.
pub open spec fn read_vli(s: Seq<u8>, pos: int) -> Option<(u64, int)> {
    if pos < 0 || pos >= s.len() {
        None
    } else {
        match vli_run(0, 0, s.skip(pos)) {
            VliRun::Complete { value, used } => Some((value, pos + used)),
            _ => None,
        }
    }
}

/// Reading Filter Flags at `pos` of `s`: the return code, the filter and
/// the position after them (the last two meaningful on `LZMA_OK`).
pub open spec fn filter_flags_parse(s: Seq<u8>, pos: int) -> (u32, Filter, int) {
    match read_vli(s, pos) {
        None => (LZMA_DATA_ERROR, Filter { id: 0, options: FilterOptions::Absent }, pos),
        Some((id, p1)) => if id >= LZMA_FILTER_RESERVED_START {
            (LZMA_DATA_ERROR, Filter { id, options: FilterOptions::Absent }, p1)
        } else {
            match read_vli(s, p1) {
                None => (LZMA_DATA_ERROR, Filter { id, options: FilterOptions::Absent }, p1),
                Some((size, p2)) => if s.len() - p2 < size {
                    (LZMA_DATA_ERROR, Filter { id, options: FilterOptions::Absent }, p2)
                } else {
                    match props_decoded(id, s.subrange(p2, p2 + size)) {
                        Ok(o) => (LZMA_OK, Filter { id, options: o }, p2 + size),
                        Err(e) => (e, Filter { id, options: FilterOptions::Absent }, p2 + size),
                    }
                },
            }
        },
    }
}

/// Reads Filter Flags from `input` at `*in_pos` into `filter`, advancing
/// `*in_pos` past them; see `filter_flags_parse`.
pub fn lzma_filter_flags_decode(filter: &mut Filter, input: &[u8], in_pos: &mut usize) -> (ret: u32)
    ensures
        ({
            let (r, f, p) = filter_flags_parse(input@, *old(in_pos) as int);
            &&& ret == r
            &&& ret == LZMA_OK ==> *final(filter) == f && *final(in_pos) == p
        }),
{
    filter.options = FilterOptions::Absent;
    let mut id: u64 = 0;
    let ghost s0 = *in_pos;
    proof {
        lemma_vli_run_used(0, 0, input@.skip(s0 as int));
    }
    let ret = lzma_vli_decode(&mut id, None, input, in_pos);
    if ret != LZMA_OK {
        return ret;
    }
    filter.id = id;
    if id >= LZMA_FILTER_RESERVED_START {
        return LZMA_DATA_ERROR;
    }
    let mut props_size: u64 = 0;
    let ghost s1 = *in_pos;
    proof {
        lemma_vli_run_used(0, 0, input@.skip(s1 as int));
    }
    let ret = lzma_vli_decode(&mut props_size, None, input, in_pos);
    if ret != LZMA_OK {
        return ret;
    }
    if ((input.len() - *in_pos) as u64) < props_size {
        return LZMA_DATA_ERROR;
    }
    let n = props_size as usize;
    let props = vstd::slice::slice_subrange(input, *in_pos, *in_pos + n);
    let ret = lzma_properties_decode(filter, props);
    *in_pos = *in_pos + n;
    ret
}

/// Reading back the Filter Flags written for a filter, whatever comes
/// before and after them, gives the filter with its options as
/// `props_canonical` describes them, and stops right after them.
pub proof fn law_filter_flags_roundtrip(f: Filter, pre: Seq<u8>, rest: Seq<u8>)
    requires
        filter_flags_bytes(f) is Ok,
    ensures
        ({
            let b = filter_flags_bytes(f)->Ok_0;
            filter_flags_parse(pre + b + rest, pre.len() as int) == (
                LZMA_OK,
                Filter { id: f.id, options: props_canonical(f) },
                (pre.len() + b.len()) as int,
            )
        }),
{
    let b = filter_flags_bytes(f)->Ok_0;
    let p = props_encoding(f)->Ok_0;
    let e1 = vli_encoding(f.id);
    let e2 = vli_encoding(p.len() as u64);
    let s = pre + b + rest;
    lemma_vli_size_bounds(f.id);
    assert(p.len() <= 5);
    lemma_vli_size_bounds(p.len() as u64);
    assert(s.skip(pre.len() as int) =~= e1 + (e2 + p + rest));
    law_vli_roundtrip(f.id, e2 + p + rest);
    let p1 = pre.len() + e1.len();
    assert(s.skip(p1 as int) =~= e2 + (p + rest));
    law_vli_roundtrip(p.len() as u64, p + rest);
    let p2 = p1 + e2.len();
    assert(s.subrange(p2 as int, (p2 + p.len()) as int) =~= p);
    law_properties_roundtrip(f);
}

} // verus!
