//! Writing the Index field of a Stream from the sizes of its Blocks.
use vstd::prelude::*;
use crate::block_header::zeros;
use crate::crc::{crc32, crc32_of};
use crate::types::{
    le32_bytes, LZMA_BACKWARD_SIZE_MAX, LZMA_DATA_ERROR, LZMA_STREAM_END, LZMA_VLI_MAX, UNPADDED_SIZE_MAX, UNPADDED_SIZE_MIN,
};
use crate::index_hash::{
    ih_after, ih_run, info_append, vli_acc, info_append_fits, info_within, padding_of, HashInfoModel, IndexHashModel,
    SEQ_BLOCK, SEQ_COUNT, SEQ_CRC32, SEQ_PADDING, SEQ_PADDING_INIT, SEQ_UNCOMPRESSED, SEQ_UNPADDED,
};
use crate::index_size::{index_size, index_size_unpadded};
use crate::vli::{vli_run, VliRun, lzma_vli_encode, lzma_vli_size, vli_encoding, vli_size_spec};

verus! {

/// The Records of the Index: each Block's Unpadded Size and uncompressed
/// size, as variable-length integers, in order.
pub open spec fn records_bytes(pairs: Seq<(u64, u64)>) -> Seq<u8>
    decreases pairs.len(),
{
    if pairs.len() == 0 {
        Seq::empty()
    } else {
        records_bytes(pairs.drop_last()) + vli_encoding(pairs.last().0) + vli_encoding(
            pairs.last().1,
        )
    }
}

/// The Index Indicator, the Number of Records and the Records.
pub open spec fn index_list(pairs: Seq<(u64, u64)>) -> Seq<u8> {
    seq![0u8] + vli_encoding(pairs.len() as u64) + records_bytes(pairs)
}

/// The Index without its CRC32: the list and the Index Padding that brings
/// it to a multiple of four bytes.
pub open spec fn index_body(pairs: Seq<(u64, u64)>) -> Seq<u8> {
    let l = index_list(pairs);
    l + zeros(((4 - l.len() % 4) % 4) as int)
}

/// The Index field for Blocks of the given (Unpadded Size, uncompressed size)
/// pairs: the body and its CRC32, little-endian.
pub open spec fn index_field(pairs: Seq<(u64, u64)>) -> Seq<u8> {
    let b = index_body(pairs);
    b + le32_bytes(crc32_of(b, 0))
}

/// Appends the encoding of `v`.
fn push_vli(out: &mut Vec<u8>, v: u64)
    requires
        v <= LZMA_VLI_MAX,
    ensures
        final(out)@ == old(out)@ + vli_encoding(v),
{
    let n = lzma_vli_size(v);
    let mut buf = [0u8; 9];
    let mut pos: usize = 0;
    lzma_vli_encode(v, None, &mut buf, &mut pos);
    let ghost o = out@;
    let mut i: usize = 0;
    while i < pos
        invariant
            pos == vli_encoding(v).len(),
            pos <= 9,
            buf@.take(pos as int) == vli_encoding(v),
            i <= pos,
            out@ == o + vli_encoding(v).take(i as int),
        decreases pos - i,
    {
        out.push(buf[i]);
        i = i + 1;
        assert(out@ =~= o + vli_encoding(v).take(i as int));
    }
    assert(vli_encoding(v).take(pos as int) =~= vli_encoding(v));
}

/// Encodes the Index field of a Stream whose Blocks have the given
/// (Unpadded Size, uncompressed size) pairs, in order.
pub fn index_encode(pairs: &[(u64, u64)]) -> (r: Vec<u8>)
    requires
        pairs@.len() <= LZMA_VLI_MAX,
        forall|k: int| 0 <= k < pairs@.len() ==> pairs@[k].0 <= LZMA_VLI_MAX && pairs@[k].1
            <= LZMA_VLI_MAX,
    ensures
        r@ == index_field(pairs@),
{
    let mut out: Vec<u8> = Vec::new();
    out.push(0u8);
    push_vli(&mut out, pairs.len() as u64);
    let ghost head = out@;
    assert(head =~= seq![0u8] + vli_encoding(pairs@.len() as u64));
    let mut i: usize = 0;
    while i < pairs.len()
        invariant
            i <= pairs@.len(),
            forall|k: int| 0 <= k < pairs@.len() ==> pairs@[k].0 <= LZMA_VLI_MAX && pairs@[k].1
                <= LZMA_VLI_MAX,
            head == seq![0u8] + vli_encoding(pairs@.len() as u64),
            out@ == head + records_bytes(pairs@.take(i as int)),
        decreases pairs.len() - i,
    {
        let (u, c) = pairs[i];
        push_vli(&mut out, u);
        push_vli(&mut out, c);
        i = i + 1;
        assert(pairs@.take(i as int).drop_last() =~= pairs@.take(i - 1));
        assert(out@ =~= head + records_bytes(pairs@.take(i as int)));
    }
    assert(pairs@.take(pairs@.len() as int) =~= pairs@);
    let ghost l = out@;
    assert(l == index_list(pairs@));
    let ghost pad: int = (4 - l.len() % 4) % 4;
    assert((l.len() + pad) % 4 == 0);
    while out.len() % 4 != 0
        invariant
            l == index_list(pairs@),
            pad == (4 - l.len() % 4) % 4,
            0 <= pad <= 3,
            (l.len() + pad) % 4 == 0,
            l.len() <= out@.len() <= l.len() + pad,
            out@ == l + zeros(out@.len() - l.len()),
        decreases l.len() + pad - out@.len(),
    {
        out.push(0u8);
        assert(out@ =~= l + zeros(out@.len() - l.len()));
    }
    assert(out@.len() - l.len() == (4 - l.len() % 4) % 4);
    assert(out@ == index_body(pairs@));
    let crc = crc32(out.as_slice(), 0);
    let ghost b = out@;
    out.push(crc as u8);
    out.push((crc >> 8u32) as u8);
    out.push((crc >> 16u32) as u8);
    out.push((crc >> 24u32) as u8);
    assert(out@ =~= b + le32_bytes(crc));
    out
}

/// Sum of the sizes of the variable-length integers of the Records.
pub open spec fn list_size_of(pairs: Seq<(u64, u64)>) -> int
    decreases pairs.len(),
{
    if pairs.len() == 0 {
        0
    } else {
        list_size_of(pairs.drop_last()) + vli_size_spec(pairs.last().0) + vli_size_spec(
            pairs.last().1,
        )
    }
}

/// What an Index hash with no Blocks has added up.
pub open spec fn empty_info() -> HashInfoModel {
    HashInfoModel {
        blocks_size: 0,
        uncompressed_size: 0,
        count: 0,
        index_list_size: 0,
        hashed: Seq::empty(),
    }
}

/// What an Index hash adds up after the Blocks `pairs` are appended in
/// order.
pub open spec fn hash_info_of(pairs: Seq<(u64, u64)>) -> HashInfoModel
    decreases pairs.len(),
{
    if pairs.len() == 0 {
        empty_info()
    } else {
        info_append(hash_info_of(pairs.drop_last()), pairs.last().0, pairs.last().1)
    }
}

/// The pairs are ones an Index can list: each size within the largest
/// variable-length integer, and the list not too long for one.
pub open spec fn pairs_listable(pairs: Seq<(u64, u64)>) -> bool {
    &&& pairs.len() <= LZMA_VLI_MAX
    &&& forall|k: int| 0 <= k < pairs.len() ==> pairs[k].0 <= LZMA_VLI_MAX && pairs[k].1
        <= LZMA_VLI_MAX
    &&& list_size_of(pairs) <= LZMA_VLI_MAX
}

proof fn lemma_list_size_grows(pairs: Seq<(u64, u64)>)
    ensures
        list_size_of(pairs) >= list_size_of(pairs.drop_last()) || pairs.len() == 0,
        list_size_of(pairs) >= 0,
    decreases pairs.len(),
{
    if pairs.len() > 0 {
        lemma_list_size_grows(pairs.drop_last());
    }
}

proof fn lemma_records_bytes_len(pairs: Seq<(u64, u64)>)
    requires
        forall|k: int| 0 <= k < pairs.len() ==> pairs[k].0 <= LZMA_VLI_MAX && pairs[k].1
            <= LZMA_VLI_MAX,
    ensures
        records_bytes(pairs).len() == list_size_of(pairs),
    decreases pairs.len(),
{
    if pairs.len() > 0 {
        let d = pairs.drop_last();
        assert forall|k: int| 0 <= k < d.len() implies d[k].0 <= LZMA_VLI_MAX && d[k].1
            <= LZMA_VLI_MAX by {
            assert(d[k] == pairs[k]);
        }
        lemma_records_bytes_len(d);
        assert(pairs.last() == pairs[pairs.len() - 1]);
    }
}

proof fn lemma_hash_info_sums(pairs: Seq<(u64, u64)>)
    requires
        pairs_listable(pairs),
    ensures
        hash_info_of(pairs).count == pairs.len(),
        hash_info_of(pairs).index_list_size == list_size_of(pairs),
    decreases pairs.len(),
{
    if pairs.len() > 0 {
        let d = pairs.drop_last();
        lemma_list_size_grows(pairs);
        lemma_list_size_grows(d);
        assert forall|k: int| 0 <= k < d.len() implies d[k].0 <= LZMA_VLI_MAX && d[k].1
            <= LZMA_VLI_MAX by {
            assert(d[k] == pairs[k]);
        }
        lemma_hash_info_sums(d);
    }
}

/// The size that an Index hash expects of the Index field, once the Blocks
/// `pairs` are appended to it, is the size of the Index field written for
/// those Blocks.
pub proof fn law_index_hash_size_is_field_size(pairs: Seq<(u64, u64)>)
    requires
        pairs_listable(pairs),
    ensures
        index_size(hash_info_of(pairs).count, hash_info_of(pairs).index_list_size)
            == index_field(pairs).len(),
{
    lemma_hash_info_sums(pairs);
    lemma_records_bytes_len(pairs);
    let l = index_list(pairs);
    assert(l.len() == 1 + vli_encoding(pairs.len() as u64).len() + list_size_of(pairs));
    assert(vli_size_spec(pairs.len() as u64) == vli_encoding(pairs.len() as u64).len());
    assert(index_body(pairs).len() == l.len() + (4 - l.len() % 4) % 4);
}

/// The Blocks `pairs` can be appended, in order, to an Index hash with no
/// Blocks, every append succeeding.
pub open spec fn pairs_appendable(pairs: Seq<(u64, u64)>) -> bool
    decreases pairs.len(),
{
    if pairs.len() == 0 {
        true
    } else {
        let d = pairs.drop_last();
        let u = pairs.last().0;
        let c = pairs.last().1;
        &&& pairs_appendable(d)
        &&& UNPADDED_SIZE_MIN <= u <= UNPADDED_SIZE_MAX
        &&& c <= LZMA_VLI_MAX
        &&& info_append_fits(hash_info_of(d), u, c)
    }
}

pub(crate) proof fn lemma_appendable(p: Seq<(u64, u64)>)
    requires
        pairs_appendable(p),
    ensures
        pairs_listable(p),
        hash_info_of(p).count == p.len(),
        hash_info_of(p).index_list_size == list_size_of(p),
        list_size_of(p) >= 2 * p.len(),
        index_size(p.len() as u64, list_size_of(p) as u64) <= LZMA_BACKWARD_SIZE_MAX || p.len()
            == 0,
        forall|j: int| 0 <= j <= p.len() ==> pairs_appendable(#[trigger] p.take(j)),
        forall|j: int|
            0 <= j <= p.len() ==> info_within(#[trigger] hash_info_of(p.take(j)), hash_info_of(p)),
    decreases p.len(),
{
    if p.len() == 0 {
        assert forall|j: int| 0 <= j <= p.len() implies pairs_appendable(#[trigger] p.take(j)) by {
            assert(p.take(j) =~= p);
        }
        assert forall|j: int| 0 <= j <= p.len() implies info_within(
            #[trigger] hash_info_of(p.take(j)),
            hash_info_of(p),
        ) by {
            assert(p.take(j) =~= p);
        }
    } else {
        let d = p.drop_last();
        let u = p.last().0;
        let c = p.last().1;
        lemma_appendable(d);
        crate::vli::lemma_vli_size_bounds(u);
        crate::vli::lemma_vli_size_bounds(c);
        crate::vli::lemma_vli_size_bounds((d.len() + 1) as u64);
        assert(index_size((d.len() + 1) as u64, list_size_of(p) as u64)
            <= LZMA_BACKWARD_SIZE_MAX);
        assert forall|k: int| 0 <= k < p.len() implies p[k].0 <= LZMA_VLI_MAX && p[k].1
            <= LZMA_VLI_MAX by {
            if k < d.len() {
                assert(d[k] == p[k]);
            } else {
                assert(p[k] == p.last());
            }
        }
        assert forall|j: int| 0 <= j <= p.len() implies pairs_appendable(#[trigger] p.take(j)) by {
            if j < p.len() {
                assert(p.take(j) =~= d.take(j));
            } else {
                assert(p.take(j) =~= p);
            }
        }
        assert forall|j: int| 0 <= j <= p.len() implies info_within(
            #[trigger] hash_info_of(p.take(j)),
            hash_info_of(p),
        ) by {
            if j < p.len() {
                assert(p.take(j) =~= d.take(j));
                assert(info_within(hash_info_of(d.take(j)), hash_info_of(d)));
            } else {
                assert(p.take(j) =~= p);
            }
        }
    }
}

proof fn lemma_records_take(p: Seq<(u64, u64)>, i: int)
    requires
        0 <= i <= p.len(),
    ensures
        records_bytes(p.take(i)).len() <= records_bytes(p).len(),
        records_bytes(p).take(records_bytes(p.take(i)).len() as int) == records_bytes(p.take(i)),
    decreases p.len(),
{
    if i == p.len() {
        assert(p.take(i) =~= p);
    } else {
        let d = p.drop_last();
        assert(p.take(i) =~= d.take(i));
        lemma_records_take(d, i);
        let rd = records_bytes(d);
        let rp = records_bytes(p);
        assert(rp == rd + vli_encoding(p.last().0) + vli_encoding(p.last().1));
        assert(rp.take(records_bytes(d.take(i)).len() as int) =~= rd.take(
            records_bytes(d.take(i)).len() as int,
        ));
    }
}

/// Offset in the Index field of the Record `i` of `p`.
pub open spec fn record_offset(p: Seq<(u64, u64)>, i: int) -> int {
    (1 + vli_encoding(p.len() as u64).len() + records_bytes(p.take(i)).len()) as int
}

proof fn lemma_field_parts(p: Seq<(u64, u64)>)
    ensures
        index_field(p).take(index_list(p).len() as int) == index_list(p),
        index_field(p).len() == index_body(p).len() + 4,
        index_field(p).take(index_body(p).len() as int) == index_body(p),
        index_field(p).skip(index_body(p).len() as int) == le32_bytes(crc32_of(index_body(p), 0)),
        index_body(p).len() == index_list(p).len() + (4 - index_list(p).len() % 4) % 4,
        index_field(p).skip(index_list(p).len() as int).take((4 - index_list(p).len() % 4) % 4)
            == zeros((4 - index_list(p).len() % 4) % 4),
{
    let l = index_list(p);
    let b = index_body(p);
    let f = index_field(p);
    assert(f.take(b.len() as int) =~= b);
    assert(f.take(l.len() as int) =~= l);
    assert(f.skip(b.len() as int) =~= le32_bytes(crc32_of(b, 0)));
    let k = (4 - l.len() % 4) % 4;
    assert(f.skip(l.len() as int).take(k) =~= zeros(k));
}

proof fn lemma_record_bytes_at(p: Seq<(u64, u64)>, i: int)
    requires
        0 <= i < p.len(),
    ensures
        ({
            let f = index_field(p);
            let q = record_offset(p, i);
            let a = vli_encoding(p[i].0).len();
            let b = vli_encoding(p[i].1).len();
            &&& q + a + b == record_offset(p, i + 1)
            &&& record_offset(p, i + 1) <= index_list(p).len()
            &&& f.skip(q) == vli_encoding(p[i].0) + f.skip(q + a)
            &&& f.skip(q + a) == vli_encoding(p[i].1) + f.skip(q + a + b)
        }),
{
    let f = index_field(p);
    let l = index_list(p);
    let h = 1 + vli_encoding(p.len() as u64).len();
    let r = records_bytes(p);
    let ri = records_bytes(p.take(i));
    let ri1 = records_bytes(p.take(i + 1));
    assert(p.take(i + 1).drop_last() =~= p.take(i));
    assert(p.take(i + 1).last() == p[i]);
    assert(ri1 == ri + vli_encoding(p[i].0) + vli_encoding(p[i].1));
    lemma_records_take(p, i + 1);
    lemma_field_parts(p);
    let q = record_offset(p, i);
    let a = vli_encoding(p[i].0).len();
    let b = vli_encoding(p[i].1).len();
    assert(l.len() == h + r.len());
    assert forall|j: int| 0 <= j < a implies f[q + j] == vli_encoding(p[i].0)[j] by {
        assert(f[q + j] == f.take(l.len() as int)[q + j]);
        assert(l[q + j] == r[ri.len() + j]);
        assert(r[ri.len() + j] == r.take(ri1.len() as int)[ri.len() + j]);
        assert(ri1[ri.len() + j] == vli_encoding(p[i].0)[j]);
    }
    assert forall|j: int| 0 <= j < b implies f[q + a + j] == vli_encoding(p[i].1)[j] by {
        assert(f[q + a + j] == f.take(l.len() as int)[q + a + j]);
        assert(l[q + a + j] == r[ri.len() + a + j]);
        assert(r[ri.len() + a + j] == r.take(ri1.len() as int)[ri.len() + a + j]);
        assert(ri1[ri.len() + a + j] == vli_encoding(p[i].1)[j]);
    }
    assert(f.skip(q) =~= vli_encoding(p[i].0) + f.skip(q + a));
    assert(f.skip(q + a) =~= vli_encoding(p[i].1) + f.skip(q + a + b));
}

proof fn lemma_ih_crc(st: IndexHashModel, u: Seq<u8>)
    requires
        st.sequence == SEQ_CRC32,
        st.pos < 4,
        u == le32_bytes(crc32_of(st.crc_input, 0)).skip(st.pos as int),
    ensures
        ih_run(st, u).1 == LZMA_STREAM_END,
        ih_run(st, u).2 == u.len(),
    decreases 4 - st.pos,
{
    let crc = crc32_of(st.crc_input, 0);
    assert(u.len() == 4 - st.pos);
    crate::index_coder::lemma_crc_byte(crc, u[0], st.pos);
    assert(u[0] == le32_bytes(crc)[st.pos as int]);
    if st.pos + 1 < 4 {
        let n = IndexHashModel { pos: st.pos + 1, ..st };
        assert(u.drop_first() =~= le32_bytes(crc).skip((st.pos + 1) as int));
        lemma_ih_crc(n, u.drop_first());
    }
}

proof fn lemma_ih_padding(st: IndexHashModel, u: Seq<u8>)
    requires
        st.sequence == SEQ_PADDING,
        st.blocks == st.records,
        u.len() == st.pos + 4,
        forall|j: int| 0 <= j < st.pos ==> u[j] == 0,
        u.skip(st.pos as int) == le32_bytes(crc32_of(st.crc_input + u.take(st.pos as int), 0)),
    ensures
        ih_run(st, u).1 == LZMA_STREAM_END,
        ih_run(st, u).2 == u.len(),
    decreases st.pos,
{
    if st.pos > 0 {
        let n = IndexHashModel {
            pos: (st.pos - 1) as nat,
            crc_input: st.crc_input.push(u[0]),
            ..st
        };
        let v = u.drop_first();
        assert(n.crc_input + v.take(n.pos as int) =~= st.crc_input + u.take(st.pos as int));
        assert(v.skip(n.pos as int) =~= u.skip(st.pos as int));
        lemma_ih_padding(n, v);
    } else {
        let n = IndexHashModel { sequence: SEQ_CRC32, pos: 0, ..st };
        assert(st.crc_input + u.take(0) =~= st.crc_input);
        assert(u =~= u.skip(0));
        lemma_ih_crc(n, u);
    }
}

/// The state of an Index hash while it reads the Record `i` of `p`, or the
/// padding once all are read.
pub open spec fn records_state(p: Seq<(u64, u64)>, i: int, st: IndexHashModel) -> bool {
    &&& pairs_appendable(p)
    &&& 0 <= i <= p.len()
    &&& st.sequence == (if i == p.len() {
        SEQ_PADDING_INIT
    } else {
        SEQ_UNPADDED
    })
    &&& st.blocks == hash_info_of(p)
    &&& st.records == hash_info_of(p.take(i))
    &&& st.remaining == p.len() - i
    &&& st.pos == 0
    &&& st.crc_input == index_field(p).take(record_offset(p, i))
}

#[verifier::rlimit(100)]
#[verifier::spinoff_prover]
proof fn lemma_ih_records_end(p: Seq<(u64, u64)>, st: IndexHashModel)
    requires
        records_state(p, p.len() as int, st),
    ensures
        ih_run(st, index_field(p).skip(record_offset(p, p.len() as int))).1 == LZMA_STREAM_END,
        ih_run(st, index_field(p).skip(record_offset(p, p.len() as int))).2 == index_field(p).len()
            - record_offset(p, p.len() as int),
{
    let f = index_field(p);
    let i = p.len() as int;
    let q = record_offset(p, i);
    lemma_appendable(p);
    lemma_field_parts(p);
    lemma_records_bytes_len(p);
    assert(p.take(i) =~= p);
    let l = index_list(p);
    let k = (4 - l.len() % 4) % 4;
    assert(q == l.len());
    crate::vli::lemma_vli_size_bounds(p.len() as u64);
    assert(padding_of(st.records.count, st.records.index_list_size) == k);
    let n = IndexHashModel { pos: k as nat, sequence: SEQ_PADDING, ..st };
    let u = f.skip(q);
    assert(u.take(k) =~= f.skip(l.len() as int).take(k));
    assert forall|j: int| 0 <= j < k implies u[j] == 0 by {
        assert(u[j] == u.take(k)[j]);
    }
    assert(st.crc_input + u.take(k) =~= index_body(p));
    assert(u.skip(k) =~= f.skip(index_body(p).len() as int));
    lemma_ih_padding(n, u);
    assert(ih_run(st, u) == ih_run(n, u));
}

#[verifier::rlimit(100)]
#[verifier::spinoff_prover]
proof fn lemma_ih_record_step(p: Seq<(u64, u64)>, i: int, st: IndexHashModel) -> (s2: IndexHashModel)
    requires
        records_state(p, i, st),
        i < p.len(),
    ensures
        records_state(p, i + 1, s2),
        record_offset(p, i) < record_offset(p, i + 1) <= index_field(p).len(),
        ih_run(st, index_field(p).skip(record_offset(p, i))) == ih_after(
            ih_run(s2, index_field(p).skip(record_offset(p, i + 1))),
            (record_offset(p, i + 1) - record_offset(p, i)) as nat,
        ),
{
    let f = index_field(p);
    let q = record_offset(p, i);
    lemma_appendable(p);
    lemma_field_parts(p);
    lemma_record_bytes_at(p, i);
    let u = p[i].0;
    let c = p[i].1;
    let a = vli_encoding(u).len();
    let b = vli_encoding(c).len();
    assert(p.take(i + 1).drop_last() =~= p.take(i));
    assert(p.take(i + 1).last() == p[i]);
    assert(pairs_appendable(p.take(i + 1)));
    crate::vli::law_vli_roundtrip(u, f.skip(q + a));
    crate::vli::law_vli_roundtrip(c, f.skip(q + a + b));
    let s1 = IndexHashModel {
        unpadded_size: u,
        pos: 0,
        sequence: SEQ_UNCOMPRESSED,
        crc_input: st.crc_input + f.skip(q).take(a as int),
        ..st
    };
    assert(s1.crc_input =~= f.take(q + a));
    assert(f.skip(q).skip(a as int) =~= f.skip(q + a));
    let r = info_append(s1.records, u, c);
    assert(r == hash_info_of(p.take(i + 1)));
    assert(info_within(hash_info_of(p.take(i + 1)), hash_info_of(p)));
    let rem = (st.remaining - 1) as u64;
    let s2 = IndexHashModel {
        uncompressed_size: c,
        records: r,
        remaining: rem,
        pos: 0,
        sequence: if rem == 0 {
            SEQ_PADDING_INIT
        } else {
            SEQ_UNPADDED
        },
        crc_input: s1.crc_input + f.skip(q + a).take(b as int),
        ..s1
    };
    assert(s2.crc_input =~= f.take(record_offset(p, i + 1)));
    assert(f.skip(q + a).skip(b as int) =~= f.skip(record_offset(p, i + 1)));
    assert(ih_run(s1, f.skip(q + a)) == ih_after(ih_run(s2, f.skip(q + a + b)), b));
    assert(ih_run(st, f.skip(q)) == ih_after(ih_run(s1, f.skip(q + a)), a));
    s2
}

proof fn lemma_ih_records(p: Seq<(u64, u64)>, i: int, st: IndexHashModel)
    requires
        records_state(p, i, st),
    ensures
        ih_run(st, index_field(p).skip(record_offset(p, i))).1 == LZMA_STREAM_END,
        ih_run(st, index_field(p).skip(record_offset(p, i))).2 == index_field(p).len()
            - record_offset(p, i),
    decreases p.len() - i,
{
    if i == p.len() {
        lemma_ih_records_end(p, st);
    } else {
        let s2 = lemma_ih_record_step(p, i, st);
        lemma_ih_records(p, i + 1, s2);
    }
}

/// An Index hash to which the Blocks `pairs` were appended accepts the Index
/// field written for exactly those Blocks: it reads all of it and ends the
/// Index with `LZMA_STREAM_END`.
pub proof fn law_index_hash_accepts_field(pairs: Seq<(u64, u64)>, st: IndexHashModel)
    requires
        pairs_appendable(pairs),
        st.sequence == SEQ_BLOCK,
        st.blocks == hash_info_of(pairs),
        st.records == empty_info(),
        st.pos == 0,
        st.remaining == 0,
        st.crc_input == Seq::<u8>::empty(),
    ensures
        ih_run(st, index_field(pairs)).1 == LZMA_STREAM_END,
        ih_run(st, index_field(pairs)).2 == index_field(pairs).len(),
{
    let p = pairs;
    let f = index_field(p);
    lemma_appendable(p);
    lemma_field_parts(p);
    let n = p.len();
    let e = vli_encoding(n as u64);
    assert(f[0] == index_list(p)[0]);
    assert(f[0] == 0);
    assert(f.skip(1) =~= e + f.skip(1 + e.len() as int));
    crate::vli::law_vli_roundtrip(n as u64, f.skip(1 + e.len() as int));
    let s1 = IndexHashModel { sequence: SEQ_COUNT, crc_input: st.crc_input.push(f[0]), ..st };
    assert(f.drop_first() =~= f.skip(1));
    assert(p.take(0) =~= Seq::<(u64, u64)>::empty());
    let s2 = IndexHashModel {
        remaining: n as u64,
        pos: 0,
        sequence: if n == 0 {
            SEQ_PADDING_INIT
        } else {
            SEQ_UNPADDED
        },
        crc_input: s1.crc_input + f.skip(1).take(e.len() as int),
        ..s1
    };
    assert(s2.crc_input =~= f.take(record_offset(p, 0)));
    assert(f.skip(1).skip(e.len() as int) =~= f.skip(record_offset(p, 0)));
    assert(hash_info_of(p.take(0)) == empty_info());
    lemma_ih_records(p, 0, s2);
    assert(ih_run(s1, f.skip(1)) == ih_after(ih_run(s2, f.skip(record_offset(p, 0))), e.len()));
    assert(ih_run(st, f) == ih_after(ih_run(s1, f.drop_first()), 1));
}

/// An Index hash that was given another number of Blocks than the Index
/// field of `pairs` lists refuses that field with `LZMA_DATA_ERROR`.
pub proof fn law_index_hash_rejects_count(pairs: Seq<(u64, u64)>, st: IndexHashModel)
    requires
        pairs.len() <= LZMA_VLI_MAX,
        st.sequence == SEQ_BLOCK,
        st.blocks.count != pairs.len(),
        st.pos == 0,
        st.remaining == 0,
    ensures
        ih_run(st, index_field(pairs)).1 == LZMA_DATA_ERROR,
{
    let p = pairs;
    let f = index_field(p);
    lemma_field_parts(p);
    let n = p.len();
    let e = vli_encoding(n as u64);
    assert(f[0] == index_list(p)[0]);
    assert(f[0] == 0);
    assert(f.skip(1) =~= e + f.skip(1 + e.len() as int));
    crate::vli::law_vli_roundtrip(n as u64, f.skip(1 + e.len() as int));
    let s1 = IndexHashModel { sequence: SEQ_COUNT, crc_input: st.crc_input.push(f[0]), ..st };
    assert(f.drop_first() =~= f.skip(1));
    assert(ih_run(s1, f.skip(1)).1 == LZMA_DATA_ERROR);
    assert(ih_run(st, f) == ih_after(ih_run(s1, f.drop_first()), 1));
}

/// A run of the Index hash's decoder that ends the Index within `s` ends
/// the same way whatever follows `s`.
pub proof fn lemma_ih_run_extend(st: IndexHashModel, s: Seq<u8>, t: Seq<u8>)
    requires
        ih_run(st, s).1 == LZMA_STREAM_END,
    ensures
        ih_run(st, s + t) == ih_run(st, s),
    decreases s.len(), 7 - st.sequence,
{
    let u = s + t;
    if st.sequence > SEQ_CRC32 || s.len() == 0 {
    } else {
        assert(u[0] == s[0]);
        assert(u.drop_first() =~= s.drop_first() + t);
        if st.sequence == SEQ_BLOCK {
            if s[0] == 0 {
                lemma_ih_run_extend(
                    IndexHashModel { sequence: SEQ_COUNT, crc_input: st.crc_input.push(s[0]), ..st },
                    s.drop_first(),
                    t,
                );
            }
        } else if st.sequence == SEQ_COUNT || st.sequence == SEQ_UNPADDED || st.sequence
            == SEQ_UNCOMPRESSED {
            let field = if st.sequence == SEQ_COUNT {
                st.remaining
            } else if st.sequence == SEQ_UNPADDED {
                st.unpadded_size
            } else {
                st.uncompressed_size
            };
            crate::vli::lemma_vli_run_concat(vli_acc(field, st.pos), st.pos, s, t);
            crate::vli::lemma_vli_run_used(vli_acc(field, st.pos), st.pos, s);
            match vli_run(vli_acc(field, st.pos), st.pos, s) {
                VliRun::Complete { value, used } => {
                    assert(u.take(used as int) =~= s.take(used as int));
                    assert(u.skip(used as int) =~= s.skip(used as int) + t);
                    if st.sequence == SEQ_COUNT {
                        if !(value != st.blocks.count) {
                            lemma_ih_run_extend(
                                IndexHashModel {
                                    remaining: value,
                                    pos: 0,
                                    sequence: if value == 0 {
                                        SEQ_PADDING_INIT
                                    } else {
                                        SEQ_UNPADDED
                                    },
                                    crc_input: st.crc_input + s.take(used as int),
                                    ..st
                                },
                                s.skip(used as int),
                                t,
                            );
                        }
                    } else if st.sequence == SEQ_UNPADDED {
                        if !(value < UNPADDED_SIZE_MIN || value > UNPADDED_SIZE_MAX) {
                            lemma_ih_run_extend(
                                IndexHashModel {
                                    unpadded_size: value,
                                    pos: 0,
                                    sequence: SEQ_UNCOMPRESSED,
                                    crc_input: st.crc_input + s.take(used as int),
                                    ..st
                                },
                                s.skip(used as int),
                                t,
                            );
                        }
                    } else {
                        let r = info_append(st.records, st.unpadded_size, value);
                        if !(!info_within(r, st.blocks) || st.remaining == 0) {
                            let rem = (st.remaining - 1) as u64;
                            lemma_ih_run_extend(
                                IndexHashModel {
                                    uncompressed_size: value,
                                    records: r,
                                    remaining: rem,
                                    pos: 0,
                                    sequence: if rem == 0 {
                                        SEQ_PADDING_INIT
                                    } else {
                                        SEQ_UNPADDED
                                    },
                                    crc_input: st.crc_input + s.take(used as int),
                                    ..st
                                },
                                s.skip(used as int),
                                t,
                            );
                        }
                    }
                },
                _ => {},
            }
        } else if st.sequence == SEQ_PADDING_INIT {
            lemma_ih_run_extend(
                IndexHashModel {
                    pos: padding_of(st.records.count, st.records.index_list_size),
                    sequence: SEQ_PADDING,
                    ..st
                },
                s,
                t,
            );
        } else if st.sequence == SEQ_PADDING {
            if st.pos > 0 {
                if s[0] == 0 {
                    lemma_ih_run_extend(
                        IndexHashModel {
                            pos: (st.pos - 1) as nat,
                            crc_input: st.crc_input.push(s[0]),
                            ..st
                        },
                        s.drop_first(),
                        t,
                    );
                }
            } else {
                lemma_ih_run_extend(IndexHashModel { sequence: SEQ_CRC32, pos: 0, ..st }, s, t);
            }
        } else {
            if st.pos + 1 < 4 {
                lemma_ih_run_extend(IndexHashModel { pos: st.pos + 1, ..st }, s.drop_first(), t);
            }
        }
    }
}

} // verus!
