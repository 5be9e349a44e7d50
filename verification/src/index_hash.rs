//! Validation of an Index against the Blocks that were decoded, without
//! keeping the list of Blocks in memory: both lists are summarised by their
//! sums and a SHA-256 of their Records.
use vstd::prelude::*;
use crate::check::{
    check_value, le64_bytes, lzma_check_fed, lzma_check_finish, lzma_check_init,
    lzma_check_update, LzmaCheckState,
};
use crate::crc::{crc32, crc32_of, law_crc32_chunked};
use crate::index_size::{
    index_size, index_size_of, index_size_unpadded, index_size_unpadded_of, index_stream_size,
    index_stream_size_of,
};
use crate::sha256::sha256_len_limit;
use crate::types::{
    ceil4, vli_ceil4, LZMA_BACKWARD_SIZE_MAX, LZMA_BUF_ERROR, LZMA_CHECK_SHA256, LZMA_DATA_ERROR,
    LZMA_OK, LZMA_PROG_ERROR, LZMA_STREAM_END, LZMA_VLI_MAX, UNPADDED_SIZE_MAX, UNPADDED_SIZE_MIN,
};
use crate::vli::{lemma_vli_run_bound, lemma_vli_run_used, lzma_vli_decode, lzma_vli_size, vli_size_spec, VliRun, vli_run};

verus! {

/// Expecting the Index Indicator.
pub const SEQ_BLOCK: u32 = 0;
/// Decoding the Number of Records.
pub const SEQ_COUNT: u32 = 1;
/// Decoding an Unpadded Size.
pub const SEQ_UNPADDED: u32 = 2;
/// Decoding an Uncompressed Size.
pub const SEQ_UNCOMPRESSED: u32 = 3;
/// About to check the Index Padding.
pub const SEQ_PADDING_INIT: u32 = 4;
/// Checking the Index Padding.
pub const SEQ_PADDING: u32 = 5;
/// Checking the CRC32 of the Index.
pub const SEQ_CRC32: u32 = 6;

/// What one list (of Blocks or of Records) has added up to.
pub struct HashInfoModel {
    pub blocks_size: u64,
    pub uncompressed_size: u64,
    pub count: u64,
    pub index_list_size: u64,
    /// The bytes fed to the SHA-256 of the list.
    pub hashed: Seq<u8>,
}

/// The state of an Index hash.
pub struct IndexHashModel {
    pub sequence: u32,
    pub blocks: HashInfoModel,
    pub records: HashInfoModel,
    pub remaining: u64,
    pub unpadded_size: u64,
    pub uncompressed_size: u64,
    pub pos: nat,
    /// The bytes of the Index read before its CRC32 field.
    pub crc_input: Seq<u8>,
}

/// The bytes that one Record adds to the SHA-256 of a list.
pub open spec fn record_bytes(unpadded_size: u64, uncompressed_size: u64) -> Seq<u8> {
    le64_bytes(unpadded_size) + le64_bytes(uncompressed_size)
}

/// `info` with one more Record.
pub open spec fn info_append(info: HashInfoModel, unpadded_size: u64, uncompressed_size: u64)
    -> HashInfoModel {
    HashInfoModel {
        blocks_size: (info.blocks_size + ceil4(unpadded_size as int)) as u64,
        uncompressed_size: (info.uncompressed_size + uncompressed_size) as u64,
        count: (info.count + 1) as u64,
        index_list_size: (info.index_list_size + vli_size_spec(unpadded_size) + vli_size_spec(
            uncompressed_size,
        )) as u64,
        hashed: if info.hashed.len() + 16 < sha256_len_limit() {
            info.hashed + record_bytes(unpadded_size, uncompressed_size)
        } else {
            info.hashed
        },
    }
}

/// The sums of `info` after one more Record, as exact integers.
pub open spec fn info_append_fits(info: HashInfoModel, unpadded_size: u64, uncompressed_size: u64)
    -> bool {
    &&& info.blocks_size + ceil4(unpadded_size as int) <= LZMA_VLI_MAX
    &&& info.uncompressed_size + uncompressed_size <= LZMA_VLI_MAX
    &&& index_size(
        (info.count + 1) as u64,
        (info.index_list_size + vli_size_spec(unpadded_size) + vli_size_spec(
            uncompressed_size,
        )) as u64,
    ) <= LZMA_BACKWARD_SIZE_MAX
    &&& index_stream_size(
        (info.blocks_size + ceil4(unpadded_size as int)) as u64,
        (info.count + 1) as u64,
        (info.index_list_size + vli_size_spec(unpadded_size) + vli_size_spec(
            uncompressed_size,
        )) as u64,
    ) <= LZMA_VLI_MAX
}

/// The sums of `a` are no larger than those of `b`.
pub open spec fn info_within(a: HashInfoModel, b: HashInfoModel) -> bool {
    &&& a.blocks_size <= b.blocks_size
    &&& a.uncompressed_size <= b.uncompressed_size
    &&& a.index_list_size <= b.index_list_size
}

/// The sums of `a` and `b` agree.
pub open spec fn info_same_sums(a: HashInfoModel, b: HashInfoModel) -> bool {
    &&& a.blocks_size == b.blocks_size
    &&& a.uncompressed_size == b.uncompressed_size
    &&& a.index_list_size == b.index_list_size
}

/// Number of padding bytes of an Index.
pub open spec fn padding_of(count: u64, index_list_size: u64) -> nat {
    ((4 - index_size_unpadded(count, index_list_size) % 4) % 4) as nat
}

/// The partial value the decoder continues from for a field being decoded.
pub open spec fn vli_acc(value: u64, pos: nat) -> u64 {
    if pos == 0 { 0 } else { value }
}

/// `r` with `d` more bytes counted as used.
pub open spec fn ih_after(r: (IndexHashModel, u32, nat), d: nat) -> (IndexHashModel, u32, nat) {
    (r.0, r.1, r.2 + d)
}

/// Runs the Index hash decoder from `st` over the bytes of `s`: the state it
/// ends in, the value it returns and how many bytes it reads. The state is
/// meaningful only when the value is `LZMA_OK` or `LZMA_STREAM_END`.
pub open spec fn ih_run(st: IndexHashModel, s: Seq<u8>) -> (IndexHashModel, u32, nat)
    decreases s.len(), 7 - st.sequence,
{
    if st.sequence > SEQ_CRC32 {
        (st, LZMA_PROG_ERROR, 0)
    } else if s.len() == 0 {
        (st, LZMA_OK, 0)
    } else if st.sequence == SEQ_BLOCK {
        if s[0] != 0 {
            (st, LZMA_DATA_ERROR, 1)
        } else {
            ih_after(
                ih_run(
                    IndexHashModel {
                        sequence: SEQ_COUNT,
                        crc_input: st.crc_input.push(s[0]),
                        ..st
                    },
                    s.drop_first(),
                ),
                1,
            )
        }
    } else if st.sequence == SEQ_COUNT {
        match vli_run(vli_acc(st.remaining, st.pos), st.pos, s) {
            VliRun::Partial { value, pos } => (
                IndexHashModel { remaining: value, pos, crc_input: st.crc_input + s, ..st },
                LZMA_OK,
                s.len(),
            ),
            VliRun::Corrupt { used, .. } => (st, LZMA_DATA_ERROR, used),
            VliRun::Complete { value, used } => {
                if value != st.blocks.count || used == 0 || used > s.len() {
                    (st, LZMA_DATA_ERROR, used)
                } else {
                    ih_after(
                        ih_run(
                            IndexHashModel {
                                remaining: value,
                                pos: 0,
                                sequence: if value == 0 {
                                    SEQ_PADDING_INIT
                                } else {
                                    SEQ_UNPADDED
                                },
                                crc_input: st.crc_input + s.take(used as int),
                                ..st
                            },
                            s.skip(used as int),
                        ),
                        used,
                    )
                }
            },
        }
    } else if st.sequence == SEQ_UNPADDED || st.sequence == SEQ_UNCOMPRESSED {
        let field = if st.sequence == SEQ_UNPADDED {
            st.unpadded_size
        } else {
            st.uncompressed_size
        };
        match vli_run(vli_acc(field, st.pos), st.pos, s) {
            VliRun::Partial { value, pos } => (
                if st.sequence == SEQ_UNPADDED {
                    IndexHashModel { unpadded_size: value, pos, crc_input: st.crc_input + s, ..st }
                } else {
                    IndexHashModel {
                        uncompressed_size: value,
                        pos,
                        crc_input: st.crc_input + s,
                        ..st
                    }
                },
                LZMA_OK,
                s.len(),
            ),
            VliRun::Corrupt { used, .. } => (st, LZMA_DATA_ERROR, used),
            VliRun::Complete { value, used } => {
                if used == 0 || used > s.len() {
                    (st, LZMA_DATA_ERROR, used)
                } else if st.sequence == SEQ_UNPADDED {
                    if value < UNPADDED_SIZE_MIN || value > UNPADDED_SIZE_MAX {
                        (st, LZMA_DATA_ERROR, used)
                    } else {
                        ih_after(
                            ih_run(
                                IndexHashModel {
                                    unpadded_size: value,
                                    pos: 0,
                                    sequence: SEQ_UNCOMPRESSED,
                                    crc_input: st.crc_input + s.take(used as int),
                                    ..st
                                },
                                s.skip(used as int),
                            ),
                            used,
                        )
                    }
                } else {
                    let r = info_append(st.records, st.unpadded_size, value);
                    if !info_within(r, st.blocks) || st.remaining == 0 {
                        (st, LZMA_DATA_ERROR, used)
                    } else {
                        let rem = (st.remaining - 1) as u64;
                        ih_after(
                            ih_run(
                                IndexHashModel {
                                    uncompressed_size: value,
                                    records: r,
                                    remaining: rem,
                                    pos: 0,
                                    sequence: if rem == 0 {
                                        SEQ_PADDING_INIT
                                    } else {
                                        SEQ_UNPADDED
                                    },
                                    crc_input: st.crc_input + s.take(used as int),
                                    ..st
                                },
                                s.skip(used as int),
                            ),
                            used,
                        )
                    }
                }
            },
        }
    } else if st.sequence == SEQ_PADDING_INIT {
        ih_run(
            IndexHashModel {
                pos: padding_of(st.records.count, st.records.index_list_size),
                sequence: SEQ_PADDING,
                ..st
            },
            s,
        )
    } else if st.sequence == SEQ_PADDING {
        if st.pos > 0 {
            if s[0] != 0 {
                (st, LZMA_DATA_ERROR, 1)
            } else {
                ih_after(
                    ih_run(
                        IndexHashModel {
                            pos: (st.pos - 1) as nat,
                            crc_input: st.crc_input.push(s[0]),
                            ..st
                        },
                        s.drop_first(),
                    ),
                    1,
                )
            }
        } else if !info_same_sums(st.blocks, st.records) || check_value(
            LZMA_CHECK_SHA256,
            st.blocks.hashed,
        ) != check_value(LZMA_CHECK_SHA256, st.records.hashed) {
            (st, LZMA_DATA_ERROR, 0)
        } else {
            ih_run(IndexHashModel { sequence: SEQ_CRC32, pos: 0, ..st }, s)
        }
    } else {
        let crc = crc32_of(st.crc_input, 0);
        if st.pos >= 4 || ((crc >> ((st.pos * 8) as u32)) & 0xff) != s[0] as u32 {
            (st, LZMA_DATA_ERROR, 1)
        } else if st.pos + 1 >= 4 {
            (IndexHashModel { pos: st.pos + 1, ..st }, LZMA_STREAM_END, 1)
        } else {
            ih_after(ih_run(IndexHashModel { pos: st.pos + 1, ..st }, s.drop_first()), 1)
        }
    }
}

/// What one list has added up to, with the running SHA-256 of its Records.
#[allow(non_camel_case_types)]
pub struct lzma_index_hash_info {
    blocks_size: u64,
    uncompressed_size: u64,
    count: u64,
    index_list_size: u64,
    check: LzmaCheckState,
}

impl lzma_index_hash_info {
    /// The abstract value of the list.
    pub closed spec fn model(&self) -> HashInfoModel {
        HashInfoModel {
            blocks_size: self.blocks_size,
            uncompressed_size: self.uncompressed_size,
            count: self.count,
            index_list_size: self.index_list_size,
            hashed: self.check@,
        }
    }

    /// The running SHA-256 is sound.
    pub closed spec fn wf(&self) -> bool {
        &&& self.check.wf()
        &&& self.check.check_id() == LZMA_CHECK_SHA256
    }
}

/// Validates an Index against the list of Blocks given to it.
#[allow(non_camel_case_types)]
pub struct lzma_index_hash_s {
    sequence: u32,
    blocks: lzma_index_hash_info,
    records: lzma_index_hash_info,
    remaining: u64,
    unpadded_size: u64,
    uncompressed_size: u64,
    pos: usize,
    crc32: u32,
    crc_input: Ghost<Seq<u8>>,
}

impl View for lzma_index_hash_s {
    type V = IndexHashModel;

    closed spec fn view(&self) -> IndexHashModel {
        IndexHashModel {
            sequence: self.sequence,
            blocks: self.blocks.model(),
            records: self.records.model(),
            remaining: self.remaining,
            unpadded_size: self.unpadded_size,
            uncompressed_size: self.uncompressed_size,
            pos: self.pos as nat,
            crc_input: self.crc_input@,
        }
    }
}

/// The decoding state of `m` is one the decoder can reach.
pub open spec fn model_wf(m: IndexHashModel) -> bool {
    &&& m.sequence <= SEQ_CRC32
    &&& m.blocks.blocks_size <= LZMA_VLI_MAX
    &&& m.blocks.uncompressed_size <= LZMA_VLI_MAX
    &&& m.blocks.index_list_size <= LZMA_VLI_MAX
    &&& m.blocks.count <= m.blocks.index_list_size
    &&& index_size(m.blocks.count, m.blocks.index_list_size) <= LZMA_BACKWARD_SIZE_MAX
    &&& m.sequence == SEQ_BLOCK ==> m.pos == 0
    &&& m.sequence <= SEQ_COUNT ==> m.records.count == 0 && m.records.blocks_size == 0
        && m.records.uncompressed_size == 0 && m.records.index_list_size == 0
    &&& info_within(m.records, m.blocks)
    &&& m.records.count <= m.blocks.count
    &&& (m.sequence == SEQ_UNPADDED || m.sequence == SEQ_UNCOMPRESSED) ==> m.records.count
        + m.remaining == m.blocks.count && m.remaining > 0
    &&& m.sequence >= SEQ_PADDING_INIT ==> m.records.count == m.blocks.count
    &&& m.sequence == SEQ_COUNT ==> m.pos < 9 && (m.pos == 0 || m.remaining >> ((m.pos * 7) as u64)
        == 0)
    &&& m.sequence == SEQ_UNPADDED ==> m.pos < 9 && (m.pos == 0 || m.unpadded_size >> ((m.pos
        * 7) as u64) == 0)
    &&& m.sequence == SEQ_UNCOMPRESSED ==> m.pos < 9 && (m.pos == 0 || m.uncompressed_size >> ((
    m.pos * 7) as u64) == 0) && UNPADDED_SIZE_MIN <= m.unpadded_size <= UNPADDED_SIZE_MAX
    &&& m.sequence == SEQ_PADDING ==> m.pos < 4
    &&& m.sequence == SEQ_CRC32 ==> m.pos <= 4
    &&& m.blocks.hashed.len() < sha256_len_limit()
    &&& m.records.hashed.len() < sha256_len_limit()
}

impl lzma_index_hash_s {
    /// The state is consistent and reachable.
    pub closed spec fn wf(&self) -> bool {
        &&& self.blocks.wf()
        &&& self.records.wf()
        &&& model_wf(self@)
        &&& self.crc32 == crc32_of(self.crc_input@, 0)
    }
}

/// The state of an Index hash that has been given no Block yet.
pub open spec fn ih_fresh() -> IndexHashModel {
    let empty = HashInfoModel {
        blocks_size: 0,
        uncompressed_size: 0,
        count: 0,
        index_list_size: 0,
        hashed: Seq::empty(),
    };
    IndexHashModel {
        sequence: SEQ_BLOCK,
        blocks: empty,
        records: empty,
        remaining: 0,
        unpadded_size: 0,
        uncompressed_size: 0,
        pos: 0,
        crc_input: Seq::empty(),
    }
}

/// Creates an Index hash with no Blocks.
pub fn lzma_index_hash_init() -> (r: lzma_index_hash_s)
    ensures
        r.wf(),
        r@ == ih_fresh(),
        r@.sequence == SEQ_BLOCK,
        r@.blocks == (HashInfoModel {
            blocks_size: 0,
            uncompressed_size: 0,
            count: 0,
            index_list_size: 0,
            hashed: Seq::empty(),
        }),
        r@.records == r@.blocks,
        r@.crc_input == Seq::<u8>::empty(),
        r@.pos == 0,
        r@.remaining == 0,
{
    let r = lzma_index_hash_s {
        sequence: SEQ_BLOCK,
        blocks: lzma_index_hash_info {
            blocks_size: 0,
            uncompressed_size: 0,
            count: 0,
            index_list_size: 0,
            check: lzma_check_init(LZMA_CHECK_SHA256),
        },
        records: lzma_index_hash_info {
            blocks_size: 0,
            uncompressed_size: 0,
            count: 0,
            index_list_size: 0,
            check: lzma_check_init(LZMA_CHECK_SHA256),
        },
        remaining: 0,
        unpadded_size: 0,
        uncompressed_size: 0,
        pos: 0,
        crc32: 0,
        crc_input: Ghost(Seq::empty()),
    };
    proof {
        crate::crc::lemma_crc_of_empty();
        assert(index_size(0, 0) == 8) by {
            assert(vli_size_spec(0) == 1);
        }
    }
    r
}

/// Returns the size of the Index that the Blocks given so far need.
pub fn lzma_index_hash_size(index_hash: &lzma_index_hash_s) -> (r: u64)
    requires
        index_hash.wf(),
    ensures
        r == index_size(index_hash@.blocks.count, index_hash@.blocks.index_list_size),
{
    index_size_of(index_hash.blocks.count, index_hash.blocks.index_list_size)
}

fn record_le_bytes(unpadded_size: u64, uncompressed_size: u64) -> (r: Vec<u8>)
    ensures
        r@ == record_bytes(unpadded_size, uncompressed_size),
{
    let mut r: Vec<u8> = Vec::new();
    let mut i: u64 = 0;
    while i < 8
        invariant
            i <= 8,
            r@ == le64_bytes(unpadded_size).take(i as int),
        decreases 8 - i,
    {
        r.push((unpadded_size >> (8 * i)) as u8);
        i = i + 1;
        assert(r@ =~= le64_bytes(unpadded_size).take(i as int));
    }
    let mut i: u64 = 0;
    while i < 8
        invariant
            i <= 8,
            r@ == le64_bytes(unpadded_size) + le64_bytes(uncompressed_size).take(i as int),
        decreases 8 - i,
    {
        r.push((uncompressed_size >> (8 * i)) as u8);
        i = i + 1;
        assert(r@ =~= le64_bytes(unpadded_size) + le64_bytes(uncompressed_size).take(i as int));
    }
    assert(le64_bytes(unpadded_size).take(8) =~= le64_bytes(unpadded_size));
    assert(le64_bytes(uncompressed_size).take(8) =~= le64_bytes(uncompressed_size));
    r
}

/// Adds one Record to `info`. The sums are taken as exact integers, which the
/// callers keep below `2^64`.
fn hash_append(info: &mut lzma_index_hash_info, unpadded_size: u64, uncompressed_size: u64)
    requires
        old(info).wf(),
        old(info).blocks_size <= LZMA_VLI_MAX,
        old(info).uncompressed_size <= LZMA_VLI_MAX,
        old(info).index_list_size <= LZMA_VLI_MAX,
        old(info).count < LZMA_VLI_MAX,
        unpadded_size <= UNPADDED_SIZE_MAX,
        uncompressed_size <= LZMA_VLI_MAX,
    ensures
        final(info).wf(),
        final(info).model() == info_append(old(info).model(), unpadded_size, uncompressed_size),
{
    info.blocks_size = info.blocks_size + vli_ceil4(unpadded_size);
    info.uncompressed_size = info.uncompressed_size + uncompressed_size;
    let a = lzma_vli_size(unpadded_size);
    let b = lzma_vli_size(uncompressed_size);
    info.index_list_size = info.index_list_size + a as u64 + b as u64;
    info.count = info.count + 1;
    let fed = lzma_check_fed(&info.check);
    if fed < 0x2000_0000_0000_0000 - 16 {
        let bytes = record_le_bytes(unpadded_size, uncompressed_size);
        lzma_check_update(&mut info.check, LZMA_CHECK_SHA256, bytes.as_slice());
    }
}

/// Adds a Block, by its Unpadded Size and Uncompressed Size, to the list that
/// the Index will be checked against.
///
/// Returns `LZMA_PROG_ERROR` when the Index is already being decoded or a size
/// is out of range, `LZMA_DATA_ERROR` when the Block would make the sums, the
/// Index or the Stream too large (nothing is added then), and `LZMA_OK`
/// otherwise.
pub fn lzma_index_hash_append(
    index_hash: &mut lzma_index_hash_s,
    unpadded_size: u64,
    uncompressed_size: u64,
) -> (ret: u32)
    requires
        old(index_hash).wf(),
    ensures
        final(index_hash).wf(),
        ({
            let m = old(index_hash)@;
            if m.sequence != SEQ_BLOCK || unpadded_size < UNPADDED_SIZE_MIN || unpadded_size
                > UNPADDED_SIZE_MAX || uncompressed_size > LZMA_VLI_MAX {
                ret == LZMA_PROG_ERROR && final(index_hash)@ == m
            } else if !info_append_fits(m.blocks, unpadded_size, uncompressed_size) {
                ret == LZMA_DATA_ERROR && final(index_hash)@ == m
            } else {
                &&& ret == LZMA_OK
                &&& final(index_hash)@ == IndexHashModel {
                    blocks: info_append(m.blocks, unpadded_size, uncompressed_size),
                    ..m
                }
            }
        }),
{
    if index_hash.sequence != SEQ_BLOCK || unpadded_size < UNPADDED_SIZE_MIN || unpadded_size
        > UNPADDED_SIZE_MAX || uncompressed_size > LZMA_VLI_MAX {
        return LZMA_PROG_ERROR;
    }
    let blocks_size = index_hash.blocks.blocks_size + vli_ceil4(unpadded_size);
    let usize_sum = index_hash.blocks.uncompressed_size + uncompressed_size;
    let a = lzma_vli_size(unpadded_size);
    let b = lzma_vli_size(uncompressed_size);
    let list = index_hash.blocks.index_list_size + a as u64 + b as u64;
    let count = index_hash.blocks.count + 1;
    assert(a >= 1 && b >= 1);
    if blocks_size > LZMA_VLI_MAX || usize_sum > LZMA_VLI_MAX || list > LZMA_VLI_MAX {
        return LZMA_DATA_ERROR;
    }
    if index_size_of(count, list) > LZMA_BACKWARD_SIZE_MAX {
        return LZMA_DATA_ERROR;
    }
    if index_stream_size_of(blocks_size, count, list) > LZMA_VLI_MAX {
        return LZMA_DATA_ERROR;
    }
    proof {
        assert(vli_size_spec(count) >= 1) by {
            if count <= LZMA_VLI_MAX {
                crate::vli::lemma_vli_size_bounds(count);
            }
        }
    }
    hash_append(&mut index_hash.blocks, unpadded_size, uncompressed_size);
    LZMA_OK
}

fn bytes_equal(a: &Vec<u8>, b: &Vec<u8>) -> (r: bool)
    ensures
        r == (a@ == b@),
{
    if a.len() != b.len() {
        return false;
    }
    let mut i: usize = 0;
    while i < a.len()
        invariant
            i <= a.len(),
            a.len() == b.len(),
            a@.take(i as int) == b@.take(i as int),
        decreases a.len() - i,
    {
        if a[i] != b[i] {
            assert(a@[i as int] != b@[i as int]);
            return false;
        }
        i = i + 1;
        assert(a@.take(i as int) =~= a@.take(i - 1).push(a@[i - 1]));
        assert(b@.take(i as int) =~= b@.take(i - 1).push(b@[i - 1]));
    }
    assert(a@.take(a.len() as int) =~= a@);
    assert(b@.take(b.len() as int) =~= b@);
    true
}

/// One step of the decoder went as `ih_run` says: either it finished with the
/// result of the whole run, or the rest of the run from the new state gives
/// the same result.
pub open spec fn step_agrees(
    m: IndexHashModel,
    p: nat,
    m2: IndexHashModel,
    p2: nat,
    input: Seq<u8>,
    done: bool,
    ret: u32,
) -> bool {
    let r = ih_run(m, input.skip(p as int));
    if done {
        &&& ret == r.1
        &&& p2 == p + r.2
        &&& (ret == LZMA_OK || ret == LZMA_STREAM_END) ==> m2 == r.0
    } else {
        &&& p <= p2 <= input.len()
        &&& p < p2 || m2.sequence > m.sequence
        &&& m2.sequence <= SEQ_CRC32
        &&& r == ih_after(ih_run(m2, input.skip(p2 as int)), (p2 - p) as nat)
    }
}

proof fn lemma_ih_run_used(st: IndexHashModel, s: Seq<u8>)
    ensures
        ih_run(st, s).2 <= s.len(),
        ih_run(st, s).1 == LZMA_OK || ih_run(st, s).1 == LZMA_STREAM_END || ih_run(st, s).1
            == LZMA_DATA_ERROR || ih_run(st, s).1 == LZMA_PROG_ERROR,
    decreases s.len(), 7 - st.sequence,
{
    if st.sequence > SEQ_CRC32 || s.len() == 0 {
    } else if st.sequence == SEQ_BLOCK {
        if s[0] == 0 {
            lemma_ih_run_used(
                IndexHashModel { sequence: SEQ_COUNT, crc_input: st.crc_input.push(s[0]), ..st },
                s.drop_first(),
            );
        }
    } else if st.sequence == SEQ_COUNT {
        lemma_vli_run_used(vli_acc(st.remaining, st.pos), st.pos, s);
        match vli_run(vli_acc(st.remaining, st.pos), st.pos, s) {
            VliRun::Complete { value, used } => {
                if !(value != st.blocks.count || used == 0 || used > s.len()) {
                    lemma_ih_run_used(
                        IndexHashModel {
                            remaining: value,
                            pos: 0,
                            sequence: if value == 0 {
                                SEQ_PADDING_INIT
                            } else {
                                SEQ_UNPADDED
                            },
                            crc_input: st.crc_input + s.take(used as int),
                            ..st
                        },
                        s.skip(used as int),
                    );
                }
            },
            _ => {},
        }
    } else if st.sequence == SEQ_UNPADDED || st.sequence == SEQ_UNCOMPRESSED {
        let field = if st.sequence == SEQ_UNPADDED {
            st.unpadded_size
        } else {
            st.uncompressed_size
        };
        lemma_vli_run_used(vli_acc(field, st.pos), st.pos, s);
        match vli_run(vli_acc(field, st.pos), st.pos, s) {
            VliRun::Complete { value, used } => {
                if used == 0 || used > s.len() {
                } else if st.sequence == SEQ_UNPADDED {
                    if !(value < UNPADDED_SIZE_MIN || value > UNPADDED_SIZE_MAX) {
                        lemma_ih_run_used(
                            IndexHashModel {
                                unpadded_size: value,
                                pos: 0,
                                sequence: SEQ_UNCOMPRESSED,
                                crc_input: st.crc_input + s.take(used as int),
                                ..st
                            },
                            s.skip(used as int),
                        );
                    }
                } else {
                    let r = info_append(st.records, st.unpadded_size, value);
                    if !(!info_within(r, st.blocks) || st.remaining == 0) {
                        let rem = (st.remaining - 1) as u64;
                        lemma_ih_run_used(
                            IndexHashModel {
                                uncompressed_size: value,
                                records: r,
                                remaining: rem,
                                pos: 0,
                                sequence: if rem == 0 {
                                    SEQ_PADDING_INIT
                                } else {
                                    SEQ_UNPADDED
                                },
                                crc_input: st.crc_input + s.take(used as int),
                                ..st
                            },
                            s.skip(used as int),
                        );
                    }
                }
            },
            _ => {},
        }
    } else if st.sequence == SEQ_PADDING_INIT {
        lemma_ih_run_used(
            IndexHashModel {
                pos: padding_of(st.records.count, st.records.index_list_size),
                sequence: SEQ_PADDING,
                ..st
            },
            s,
        );
    } else if st.sequence == SEQ_PADDING {
        if st.pos > 0 {
            if s[0] == 0 {
                lemma_ih_run_used(
                    IndexHashModel {
                        pos: (st.pos - 1) as nat,
                        crc_input: st.crc_input.push(s[0]),
                        ..st
                    },
                    s.drop_first(),
                );
            }
        } else if !(!info_same_sums(st.blocks, st.records) || check_value(
            LZMA_CHECK_SHA256,
            st.blocks.hashed,
        ) != check_value(LZMA_CHECK_SHA256, st.records.hashed)) {
            lemma_ih_run_used(IndexHashModel { sequence: SEQ_CRC32, pos: 0, ..st }, s);
        }
    } else {
        let crc = crc32_of(st.crc_input, 0);
        if !(st.pos >= 4 || ((crc >> ((st.pos * 8) as u32)) & 0xff) != s[0] as u32) && !(st.pos
            + 1 >= 4) {
            lemma_ih_run_used(IndexHashModel { pos: st.pos + 1, ..st }, s.drop_first());
        }
    }
}

fn step_block(ih: &mut lzma_index_hash_s, input: &[u8], in_pos: &mut usize) -> (res: (bool, u32))
    requires
        old(ih).wf(),
        old(ih)@.sequence == SEQ_BLOCK,
        *old(in_pos) < input@.len(),
    ensures
        step_agrees(old(ih)@, *old(in_pos) as nat, final(ih)@, *final(in_pos) as nat, input@, res.0, res.1),
        !res.0 || res.1 == LZMA_OK || res.1 == LZMA_STREAM_END ==> final(ih).wf(),
        res.0 ==> *final(in_pos) > *old(in_pos) || final(ih)@.sequence == old(ih)@.sequence,
{
    let ghost s = input@.skip(*in_pos as int);
    let byte = input[*in_pos];
    *in_pos = *in_pos + 1;
    if byte != 0 {
        return (true, LZMA_DATA_ERROR);
    }
    let one = [byte];
    proof {
        law_crc32_chunked(ih.crc_input@, one@, 0);
        assert(one@ =~= seq![byte]);
        assert(ih.crc_input@ + one@ =~= ih.crc_input@.push(byte));
    }
    ih.crc32 = crc32(one.as_slice(), ih.crc32);
    ih.sequence = SEQ_COUNT;
    ih.crc_input = Ghost(ih.crc_input@.push(byte));
    proof {
        assert(s.drop_first() =~= input@.skip(*in_pos as int));
    }
    (false, LZMA_OK)
}

fn step_vli(ih: &mut lzma_index_hash_s, input: &[u8], in_pos: &mut usize) -> (res: (bool, u32))
    requires
        old(ih).wf(),
        old(ih)@.sequence == SEQ_COUNT || old(ih)@.sequence == SEQ_UNPADDED || old(ih)@.sequence
            == SEQ_UNCOMPRESSED,
        *old(in_pos) < input@.len(),
    ensures
        step_agrees(old(ih)@, *old(in_pos) as nat, final(ih)@, *final(in_pos) as nat, input@, res.0, res.1),
        !res.0 || res.1 == LZMA_OK || res.1 == LZMA_STREAM_END ==> final(ih).wf(),
        res.0 ==> *final(in_pos) > *old(in_pos) || final(ih)@.sequence == old(ih)@.sequence,
{
    let ghost cur = ih@;
    let ghost s = input@.skip(*in_pos as int);
    let p0 = *in_pos;
    let seq = ih.sequence;
    proof {
        let field = if seq == SEQ_COUNT {
            cur.remaining
        } else if seq == SEQ_UNPADDED {
            cur.unpadded_size
        } else {
            cur.uncompressed_size
        };
        lemma_vli_run_used(vli_acc(field, cur.pos), cur.pos, s);
        if cur.pos == 0 {
            crate::vli::lemma_vli_start_bound(s);
        } else {
            lemma_vli_run_bound(vli_acc(field, cur.pos), cur.pos, s);
        }
    }
    let r = if seq == SEQ_COUNT {
        lzma_vli_decode(&mut ih.remaining, Some(&mut ih.pos), input, in_pos)
    } else if seq == SEQ_UNPADDED {
        lzma_vli_decode(&mut ih.unpadded_size, Some(&mut ih.pos), input, in_pos)
    } else {
        lzma_vli_decode(&mut ih.uncompressed_size, Some(&mut ih.pos), input, in_pos)
    };
    if r != LZMA_OK && r != LZMA_STREAM_END {
        return (true, r);
    }
    let used = vstd::slice::slice_subrange(input, p0, *in_pos);
    proof {
        law_crc32_chunked(cur.crc_input, used@, 0);
        assert(used@ =~= s.take((*in_pos - p0) as int));
    }
    ih.crc32 = crc32(used, ih.crc32);
    ih.crc_input = Ghost(cur.crc_input + used@);
    if r == LZMA_OK {
        proof {
            assert(used@ =~= s);
        }
        return (true, LZMA_OK);
    }
    proof {
        assert(s.skip((*in_pos - p0) as int) =~= input@.skip(*in_pos as int));
    }
    ih.pos = 0;
    if seq == SEQ_COUNT {
        if ih.remaining != ih.blocks.count {
            return (true, LZMA_DATA_ERROR);
        }
        ih.sequence = if ih.remaining == 0 {
            SEQ_PADDING_INIT
        } else {
            SEQ_UNPADDED
        };
        (false, LZMA_OK)
    } else if seq == SEQ_UNPADDED {
        if ih.unpadded_size < UNPADDED_SIZE_MIN || ih.unpadded_size > UNPADDED_SIZE_MAX {
            return (true, LZMA_DATA_ERROR);
        }
        ih.sequence = SEQ_UNCOMPRESSED;
        (false, LZMA_OK)
    } else {
        hash_append(&mut ih.records, ih.unpadded_size, ih.uncompressed_size);
        if ih.blocks.blocks_size < ih.records.blocks_size || ih.blocks.uncompressed_size
            < ih.records.uncompressed_size || ih.blocks.index_list_size
            < ih.records.index_list_size {
            return (true, LZMA_DATA_ERROR);
        }
        ih.remaining = ih.remaining - 1;
        ih.sequence = if ih.remaining == 0 {
            SEQ_PADDING_INIT
        } else {
            SEQ_UNPADDED
        };
        (false, LZMA_OK)
    }
}

fn step_padding(ih: &mut lzma_index_hash_s, input: &[u8], in_pos: &mut usize) -> (res: (bool, u32))
    requires
        old(ih).wf(),
        old(ih)@.sequence == SEQ_PADDING_INIT || old(ih)@.sequence == SEQ_PADDING,
        *old(in_pos) < input@.len(),
    ensures
        step_agrees(old(ih)@, *old(in_pos) as nat, final(ih)@, *final(in_pos) as nat, input@, res.0, res.1),
        !res.0 || res.1 == LZMA_OK || res.1 == LZMA_STREAM_END ==> final(ih).wf(),
        res.0 ==> *final(in_pos) > *old(in_pos) || final(ih)@.sequence == old(ih)@.sequence,
{
    let ghost s = input@.skip(*in_pos as int);
    if ih.sequence == SEQ_PADDING_INIT {
        let u = index_size_unpadded_of(ih.records.count, ih.records.index_list_size);
        ih.pos = ((4 - u % 4) % 4) as usize;
        ih.sequence = SEQ_PADDING;
        return (false, LZMA_OK);
    }
    if ih.pos > 0 {
        let byte = input[*in_pos];
        *in_pos = *in_pos + 1;
        if byte != 0 {
            return (true, LZMA_DATA_ERROR);
        }
        ih.pos = ih.pos - 1;
        let one = [byte];
        proof {
            law_crc32_chunked(ih.crc_input@, one@, 0);
            assert(one@ =~= seq![byte]);
            assert(ih.crc_input@ + one@ =~= ih.crc_input@.push(byte));
        }
        ih.crc32 = crc32(one.as_slice(), ih.crc32);
        ih.crc_input = Ghost(ih.crc_input@.push(byte));
        proof {
            assert(s.drop_first() =~= input@.skip(*in_pos as int));
        }
        return (false, LZMA_OK);
    }
    if ih.blocks.blocks_size != ih.records.blocks_size || ih.blocks.uncompressed_size
        != ih.records.uncompressed_size || ih.blocks.index_list_size
        != ih.records.index_list_size {
        return (true, LZMA_DATA_ERROR);
    }
    let mut bc = ih.blocks.check;
    let mut rc = ih.records.check;
    let bd = lzma_check_finish(&mut bc, LZMA_CHECK_SHA256);
    let rd = lzma_check_finish(&mut rc, LZMA_CHECK_SHA256);
    if !bytes_equal(&bd, &rd) {
        return (true, LZMA_DATA_ERROR);
    }
    ih.sequence = SEQ_CRC32;
    (false, LZMA_OK)
}

fn step_crc(ih: &mut lzma_index_hash_s, input: &[u8], in_pos: &mut usize) -> (res: (bool, u32))
    requires
        old(ih).wf(),
        old(ih)@.sequence == SEQ_CRC32,
        *old(in_pos) < input@.len(),
    ensures
        step_agrees(old(ih)@, *old(in_pos) as nat, final(ih)@, *final(in_pos) as nat, input@, res.0, res.1),
        !res.0 || res.1 == LZMA_OK || res.1 == LZMA_STREAM_END ==> final(ih).wf(),
        res.0 ==> *final(in_pos) > *old(in_pos) || final(ih)@.sequence == old(ih)@.sequence,
{
    let ghost s = input@.skip(*in_pos as int);
    let byte = input[*in_pos];
    *in_pos = *in_pos + 1;
    if ih.pos >= 4 || (ih.crc32 >> ((ih.pos * 8) as u32)) & 0xff != byte as u32 {
        return (true, LZMA_DATA_ERROR);
    }
    ih.pos = ih.pos + 1;
    if ih.pos >= 4 {
        return (true, LZMA_STREAM_END);
    }
    proof {
        assert(s.drop_first() =~= input@.skip(*in_pos as int));
    }
    (false, LZMA_OK)
}

/// Decodes the Index from `input`, starting at `*in_pos` and advancing it,
/// and checks it against the Blocks given to `lzma_index_hash_append`.
///
/// Returns `LZMA_BUF_ERROR` when there is no input, `LZMA_OK` when the input
/// ran out before the end of the Index, `LZMA_STREAM_END` when the whole
/// Index was read and agrees with the Blocks, and `LZMA_DATA_ERROR` when it is
/// corrupt or disagrees. What it does over the input is `ih_run`.
pub fn lzma_index_hash_decode(index_hash: &mut lzma_index_hash_s, input: &[u8], in_pos: &mut usize)
    -> (ret: u32)
    requires
        old(index_hash).wf(),
    ensures
        ({
            let start = *old(in_pos);
            if start >= input@.len() {
                &&& ret == LZMA_BUF_ERROR
                &&& *final(in_pos) == start
                &&& final(index_hash)@ == old(index_hash)@
                &&& final(index_hash).wf()
            } else {
                let r = ih_run(old(index_hash)@, input@.skip(start as int));
                &&& ret == r.1
                &&& ret == LZMA_OK || ret == LZMA_STREAM_END || ret == LZMA_DATA_ERROR || ret
                    == LZMA_PROG_ERROR
                &&& *final(in_pos) <= input@.len()
                &&& *final(in_pos) == start + r.2
                &&& (ret == LZMA_OK || ret == LZMA_STREAM_END) ==> final(index_hash)@ == r.0
                    && final(index_hash).wf()
            }
        }),
{
    let in_size = input.len();
    if *in_pos >= in_size {
        return LZMA_BUF_ERROR;
    }
    let in_start = *in_pos;
    let ghost m0 = index_hash@;
    let ghost whole = ih_run(m0, input@.skip(in_start as int));
    proof {
        lemma_ih_run_used(m0, input@.skip(in_start as int));
    }
    let mut ret: u32 = LZMA_OK;
    let mut done = false;
    while *in_pos < in_size && !done
        invariant
            in_size == input@.len(),
            in_start <= *in_pos <= in_size,
            whole == ih_run(m0, input@.skip(in_start as int)),
            !done || ret == LZMA_OK || ret == LZMA_STREAM_END ==> index_hash.wf(),
            !done ==> index_hash@.sequence <= SEQ_CRC32 && whole == ih_after(
                ih_run(index_hash@, input@.skip(*in_pos as int)),
                (*in_pos - in_start) as nat,
            ),
            done ==> ret == whole.1 && *in_pos == in_start + whole.2,
            done && (ret == LZMA_OK || ret == LZMA_STREAM_END) ==> index_hash@ == whole.0,
        decreases (in_size - *in_pos) * 8 + (if index_hash.sequence <= 7 {
            7 - index_hash.sequence
        } else {
            0int
        }) + (if done {
            0int
        } else {
            1int
        }),
    {
        let ghost p = *in_pos;
        let ghost m = index_hash@;
        proof {
            lemma_ih_run_used(m, input@.skip(p as int));
        }
        let res = if index_hash.sequence == SEQ_BLOCK {
            step_block(index_hash, input, in_pos)
        } else if index_hash.sequence <= SEQ_UNCOMPRESSED {
            step_vli(index_hash, input, in_pos)
        } else if index_hash.sequence <= SEQ_PADDING {
            step_padding(index_hash, input, in_pos)
        } else {
            step_crc(index_hash, input, in_pos)
        };
        done = res.0;
        ret = res.1;
    }
    if !done {
        proof {
            assert(input@.skip(*in_pos as int).len() == 0);
        }
        return LZMA_OK;
    }
    ret
}

} // verus!
