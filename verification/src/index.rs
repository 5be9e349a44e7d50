//! The Index of a .xz file: the Streams it holds and, for each, the sizes of
//! its Blocks, kept as running sums.
use vstd::prelude::*;
use crate::index_size::{index_size, index_size_of, index_size_unpadded, index_size_unpadded_of};
use crate::stream_flags::{backward_size_valid, lzma_stream_flags_compare, StreamFlags};
use crate::types::{
    ceil4, vli_ceil4, LZMA_BACKWARD_SIZE_MAX, LZMA_DATA_ERROR, LZMA_OK, LZMA_PROG_ERROR,
    LZMA_STREAM_HEADER_SIZE, LZMA_VLI_MAX, LZMA_VLI_UNKNOWN, UNPADDED_SIZE_MAX, UNPADDED_SIZE_MIN,
};
use crate::vli::{lemma_vli_size_bounds, lzma_vli_size, vli_size_spec};

verus! {

/// Number of Records a group holds unless told otherwise.
pub const INDEX_GROUP_SIZE: usize = 512;
/// Size in bytes of the header of a group of Records (64-bit targets).
pub const INDEX_GROUP_HEADER_BYTES: u64 = 64;
/// Size in bytes of a Record (64-bit targets).
pub const INDEX_RECORD_BYTES: u64 = 16;
/// Size in bytes of the bookkeeping of a Stream (64-bit targets).
pub const INDEX_STREAM_BYTES: u64 = 168;
/// Size in bytes of the bookkeeping of an Index (64-bit targets).
pub const INDEX_BYTES: u64 = 80;
/// What the allocator is assumed to spend on each allocation (64-bit targets).
pub const ALLOC_OVERHEAD: u64 = 32;
/// Largest number of Records a group may be asked to hold.
pub const PREALLOC_MAX: usize = (usize::MAX - 64) / 16;

/// Running sums after a Block: of the uncompressed sizes, and of the
/// Unpadded Sizes, each earlier one rounded up to a multiple of four.
#[allow(non_camel_case_types)]
#[derive(Clone, Copy, Debug, PartialEq, Eq, Structural)]
pub struct index_record {
    /// Sum of the uncompressed sizes up to and including this Block.
    pub uncompressed_sum: u64,
    /// Sum of the Total Sizes before this Block plus its Unpadded Size.
    pub unpadded_sum: u64,
}

/// Where a Stream or a group starts.
#[allow(non_camel_case_types)]
#[derive(Clone, Copy, Debug, PartialEq, Eq, Structural)]
pub struct index_tree_node_s {
    /// Uncompressed offset of the start.
    pub uncompressed_base: u64,
    /// Compressed offset of the start.
    pub compressed_base: u64,
}

/// A group of Records allocated together.
#[allow(non_camel_case_types)]
#[derive(Clone, Copy, Debug, PartialEq, Eq, Structural)]
pub struct index_group {
    /// Number, within its Stream, of the first Block of the group (from 1).
    pub number_base: u64,
    /// Number of Records the group has room for.
    pub allocated: usize,
    /// Position of the last Record in use.
    pub last: usize,
}

/// A Stream of the Index.
#[allow(non_camel_case_types)]
pub struct index_stream {
    /// Where the Stream starts in the file and in the uncompressed data.
    pub node: index_tree_node_s,
    /// Number of the Stream (from 1).
    pub number: u32,
    /// Number of Blocks in the Streams before this one.
    pub block_number_base: u64,
    /// The groups the Records are allocated in.
    pub groups: Vec<index_group>,
    /// The Records, one per Block.
    pub records: Vec<index_record>,
    /// Number of Records.
    pub record_count: u64,
    /// Size of the List of Records of the Stream's Index.
    pub index_list_size: u64,
    /// Stream Flags; `version` is `u32::MAX` while they are unknown.
    pub stream_flags: StreamFlags,
    /// Size of the Stream Padding after the Stream.
    pub stream_padding: u64,
}

/// An Index: Streams and their Blocks.
#[allow(non_camel_case_types)]
pub struct lzma_index_s {
    /// The Streams, in order.
    pub streams: Vec<index_stream>,
    /// Sum of the uncompressed sizes of all Blocks.
    pub uncompressed_size: u64,
    /// Sum of the Total Sizes of all Blocks.
    pub total_size: u64,
    /// Number of Blocks.
    pub record_count: u64,
    /// Sum of the sizes of the Lists of Records of all Streams.
    pub index_list_size: u64,
    /// Number of Records the next group is allocated for.
    pub prealloc: usize,
    /// Bit mask of the checks of all Streams but the last.
    pub checks: u32,
}

/// What concatenating an Index shifts the Streams it brings by.
#[allow(non_camel_case_types)]
#[derive(Clone, Copy, Debug)]
pub struct index_cat_info {
    /// Uncompressed size of the Index in front.
    pub uncompressed_size: u64,
    /// File size of the Index in front.
    pub file_size: u64,
    /// Number of Blocks of the Index in front.
    pub block_number_add: u64,
    /// Number of Streams of the Index in front.
    pub stream_number_add: u32,
}

/// Uncompressed sum before Record `j`.
pub open spec fn prev_unc(recs: Seq<index_record>, j: int) -> int {
    if j == 0 {
        0
    } else {
        recs[j - 1].uncompressed_sum as int
    }
}

/// Compressed offset, within the Stream's Blocks, of Block `j`.
pub open spec fn prev_comp(recs: Seq<index_record>, j: int) -> int {
    if j == 0 {
        0
    } else {
        ceil4(recs[j - 1].unpadded_sum as int)
    }
}

/// Unpadded Size of Block `j`.
pub open spec fn block_unpadded(recs: Seq<index_record>, j: int) -> int {
    recs[j].unpadded_sum - prev_comp(recs, j)
}

/// Uncompressed size of Block `j`.
pub open spec fn block_uncompressed(recs: Seq<index_record>, j: int) -> int {
    recs[j].uncompressed_sum - prev_unc(recs, j)
}

/// The Records are the running sums of Blocks of valid sizes.
pub open spec fn records_valid(recs: Seq<index_record>) -> bool {
    forall|j: int|
        0 <= j < recs.len() ==> {
            &&& UNPADDED_SIZE_MIN <= #[trigger] block_unpadded(recs, j) <= UNPADDED_SIZE_MAX
            &&& block_uncompressed(recs, j) >= 0
            &&& recs[j].unpadded_sum <= UNPADDED_SIZE_MAX
            &&& recs[j].uncompressed_sum <= LZMA_VLI_MAX
        }
}

/// Size of the List of Records of `recs`.
pub open spec fn list_size(recs: Seq<index_record>) -> int
    decreases recs.len(),
{
    if recs.len() == 0 {
        0
    } else {
        let j = recs.len() - 1;
        list_size(recs.drop_last()) + vli_size_spec(block_unpadded(recs, j) as u64)
            + vli_size_spec(block_uncompressed(recs, j) as u64)
    }
}

/// Number of Records in use in `groups`.
pub open spec fn group_used(groups: Seq<index_group>) -> int
    decreases groups.len(),
{
    if groups.len() == 0 {
        0
    } else {
        group_used(groups.drop_last()) + groups.last().last + 1
    }
}

/// Each group has its last Record in range and numbers its first Block
/// after those of the groups before it.
pub open spec fn groups_valid(groups: Seq<index_group>) -> bool {
    forall|g: int|
        0 <= g < groups.len() ==> #[trigger] groups[g].last < groups[g].allocated
            && groups[g].number_base == 1 + group_used(groups.take(g))
}

/// Uncompressed size of the Stream's data.
pub open spec fn stream_uncompressed(s: index_stream) -> int {
    if s.records@.len() == 0 {
        0
    } else {
        s.records@.last().uncompressed_sum as int
    }
}

/// Sum of the Total Sizes of the Stream's Blocks but the last, plus the
/// Unpadded Size of the last.
pub open spec fn stream_unpadded_sum(s: index_stream) -> int {
    if s.records@.len() == 0 {
        0
    } else {
        s.records@.last().unpadded_sum as int
    }
}

/// Size of the Stream in the file, Stream Padding included.
pub open spec fn stream_own_size(s: index_stream) -> int {
    2 * LZMA_STREAM_HEADER_SIZE + s.stream_padding + ceil4(stream_unpadded_sum(s)) + index_size(
        s.record_count,
        s.index_list_size,
    )
}

/// The Stream keeps its Records and its counts in agreement.
pub open spec fn stream_wf(s: index_stream) -> bool {
    &&& records_valid(s.records@)
    &&& s.record_count == s.records@.len()
    &&& s.index_list_size == list_size(s.records@)
    &&& groups_valid(s.groups@)
    &&& group_used(s.groups@) == s.records@.len()
    &&& s.stream_padding % 4 == 0
    &&& s.node.compressed_base + stream_own_size(s) <= LZMA_VLI_MAX
    &&& !unknown_flags(s.stream_flags) ==> s.stream_flags.version == 0
        && s.stream_flags.check <= crate::types::LZMA_CHECK_ID_MAX
}

/// Sum of the uncompressed sizes of the Streams.
pub open spec fn sum_uncompressed(ss: Seq<index_stream>) -> int
    decreases ss.len(),
{
    if ss.len() == 0 {
        0
    } else {
        sum_uncompressed(ss.drop_last()) + stream_uncompressed(ss.last())
    }
}

/// Sum of the Total Sizes of the Blocks of the Streams.
pub open spec fn sum_total(ss: Seq<index_stream>) -> int
    decreases ss.len(),
{
    if ss.len() == 0 {
        0
    } else {
        sum_total(ss.drop_last()) + ceil4(stream_unpadded_sum(ss.last()))
    }
}

/// Number of Blocks of the Streams.
pub open spec fn sum_count(ss: Seq<index_stream>) -> int
    decreases ss.len(),
{
    if ss.len() == 0 {
        0
    } else {
        sum_count(ss.drop_last()) + ss.last().record_count
    }
}

/// Sum of the sizes of the Lists of Records of the Streams.
pub open spec fn sum_list(ss: Seq<index_stream>) -> int
    decreases ss.len(),
{
    if ss.len() == 0 {
        0
    } else {
        sum_list(ss.drop_last()) + ss.last().index_list_size
    }
}

/// Size in the file of the Streams.
pub open spec fn sum_own(ss: Seq<index_stream>) -> int
    decreases ss.len(),
{
    if ss.len() == 0 {
        0
    } else {
        sum_own(ss.drop_last()) + stream_own_size(ss.last())
    }
}

/// The place of Stream `k` among the Streams `ss`.
pub open spec fn stream_placed(ss: Seq<index_stream>, k: int) -> bool {
    &&& stream_wf(ss[k])
    &&& ss[k].number == k + 1
    &&& ss[k].node.uncompressed_base == sum_uncompressed(ss.take(k))
    &&& ss[k].node.compressed_base == sum_own(ss.take(k))
    &&& ss[k].block_number_base == sum_count(ss.take(k))
}

impl lzma_index_s {
    /// The Index keeps its Streams and its totals in agreement.
    #[verifier::opaque]
    pub open spec fn wf(&self) -> bool {
        let ss = self.streams@;
        &&& 1 <= ss.len() <= u32::MAX
        &&& forall|k: int| 0 <= k < ss.len() ==> #[trigger] stream_placed(ss, k)
        &&& self.uncompressed_size == sum_uncompressed(ss)
        &&& self.total_size == sum_total(ss)
        &&& self.record_count == sum_count(ss)
        &&& self.index_list_size == sum_list(ss)
        &&& sum_uncompressed(ss.drop_last()) <= LZMA_VLI_MAX
        &&& index_size(self.record_count, self.index_list_size) <= LZMA_BACKWARD_SIZE_MAX
        &&& 1 <= self.prealloc <= PREALLOC_MAX
    }

    /// The last Stream.
    pub open spec fn last_stream(&self) -> index_stream {
        self.streams@.last()
    }
}

/// Stream Flags not known yet.
pub open spec fn unknown_flags(f: StreamFlags) -> bool {
    f.version == u32::MAX
}

fn new_stream(
    compressed_base: u64,
    uncompressed_base: u64,
    stream_number: u32,
    block_number_base: u64,
) -> (s: index_stream)
    ensures
        s.node == (index_tree_node_s { uncompressed_base, compressed_base }),
        s.number == stream_number,
        s.block_number_base == block_number_base,
        s.groups@.len() == 0,
        s.records@.len() == 0,
        s.record_count == 0,
        s.index_list_size == 0,
        unknown_flags(s.stream_flags),
        s.stream_padding == 0,
{
    index_stream {
        node: index_tree_node_s { uncompressed_base, compressed_base },
        number: stream_number,
        block_number_base,
        groups: Vec::new(),
        records: Vec::new(),
        record_count: 0,
        index_list_size: 0,
        stream_flags: StreamFlags { version: u32::MAX, backward_size: 0, check: 0 },
        stream_padding: 0,
    }
}

/// Creates an Index of one Stream with no Blocks.
pub fn lzma_index_init() -> (i: lzma_index_s)
    ensures
        i.wf(),
        i.streams@.len() == 1,
        i.last_stream().records@.len() == 0,
        i.last_stream().record_count == 0,
        i.last_stream().index_list_size == 0,
        i.last_stream().node == (index_tree_node_s { uncompressed_base: 0, compressed_base: 0 }),
        unknown_flags(i.last_stream().stream_flags),
        i.last_stream().stream_padding == 0,
        i.record_count == 0,
        i.uncompressed_size == 0,
        i.total_size == 0,
        i.index_list_size == 0,
        i.prealloc == INDEX_GROUP_SIZE,
        i.checks == 0,
{
    let s = new_stream(0, 0, 1, 0);
    let mut streams: Vec<index_stream> = Vec::new();
    streams.push(s);
    proof {
        reveal(lzma_index_s::wf);
    }
    let i = lzma_index_s {
        streams,
        uncompressed_size: 0,
        total_size: 0,
        record_count: 0,
        index_list_size: 0,
        prealloc: INDEX_GROUP_SIZE,
        checks: 0,
    };
    proof {
        let ss = i.streams@;
        assert(ss.drop_last() =~= Seq::<index_stream>::empty());
        assert(ss.take(0) =~= Seq::<index_stream>::empty());
        assert(list_size(ss[0].records@) == 0);
        assert(group_used(ss[0].groups@) == 0);
        assert(stream_placed(ss, 0));
        reveal_with_fuel(crate::vli::vli_encoding, 2);
        assert(index_size(0, 0) == 8) by {
            reveal_with_fuel(crate::vli::vli_encoding, 2);
        }
        assert(sum_total(ss.drop_last()) == 0);
        assert(sum_list(ss.drop_last()) == 0);
        assert(ceil4(0) == 0);
    }
    i
}

proof fn lemma_sum_total_le_own(ss: Seq<index_stream>)
    ensures
        0 <= sum_total(ss) <= sum_own(ss),
        0 <= sum_uncompressed(ss),
        0 <= sum_count(ss),
        0 <= sum_list(ss),
    decreases ss.len(),
{
    if ss.len() > 0 {
        lemma_sum_total_le_own(ss.drop_last());
        let s = ss.last();
        assert(ceil4(stream_unpadded_sum(s)) >= 0);
        assert(index_size(s.record_count, s.index_list_size) >= 0);
    }
}

/// Facts that follow from the invariant of the Index: the whole file fits
/// in a VLI and the totals are bounded by it.
pub proof fn lemma_index_bounds(i: &lzma_index_s)
    requires
        i.wf(),
    ensures
        sum_own(i.streams@) == i.last_stream().node.compressed_base + stream_own_size(i.last_stream()),
        sum_own(i.streams@) <= LZMA_VLI_MAX,
        i.total_size <= LZMA_VLI_MAX,
        i.index_list_size <= LZMA_BACKWARD_SIZE_MAX,
        stream_wf(i.last_stream()),
        i.last_stream().index_list_size <= LZMA_VLI_MAX,
        i.record_count <= i.index_list_size,
        i.last_stream().record_count <= i.record_count,
        1 <= i.streams@.len() <= u32::MAX,
        stream_placed(i.streams@, i.streams@.len() - 1),
        1 <= i.prealloc <= PREALLOC_MAX,
        index_size(i.record_count, i.index_list_size) <= LZMA_BACKWARD_SIZE_MAX,
        i.uncompressed_size == sum_uncompressed(i.streams@),
        i.total_size == sum_total(i.streams@),
        i.record_count == sum_count(i.streams@),
        i.index_list_size == sum_list(i.streams@),
        sum_uncompressed(i.streams@.drop_last()) <= LZMA_VLI_MAX,
{
    reveal(lzma_index_s::wf);
    let ss = i.streams@;
    let n = ss.len() - 1;
    assert(stream_placed(ss, n));
    assert forall|k: int| 0 <= k < ss.len() implies #[trigger] stream_wf(ss[k]) by {
        assert(stream_placed(ss, k));
    }
    lemma_sum_count_le_list(ss);
    assert(ss.take(n) =~= ss.drop_last());
    lemma_sum_total_le_own(ss);
    lemma_sum_total_le_own(ss.drop_last());
    assert(index_size_unpadded(i.record_count, i.index_list_size) <= index_size(i.record_count, i.index_list_size));
    lemma_list_le_total(ss);
}

proof fn lemma_count_le_list(recs: Seq<index_record>)
    requires
        records_valid(recs),
    ensures
        recs.len() <= list_size(recs),
    decreases recs.len(),
{
    if recs.len() > 0 {
        let n = recs.drop_last();
        assert forall|j: int| 0 <= j < n.len() implies {
            &&& UNPADDED_SIZE_MIN <= #[trigger] block_unpadded(n, j) <= UNPADDED_SIZE_MAX
            &&& block_uncompressed(n, j) >= 0
            &&& n[j].unpadded_sum <= UNPADDED_SIZE_MAX
            &&& n[j].uncompressed_sum <= LZMA_VLI_MAX
        } by {
            assert(n[j] == recs[j]);
            if j > 0 {
                assert(n[j - 1] == recs[j - 1]);
            }
            assert(block_unpadded(n, j) == block_unpadded(recs, j));
        }
        lemma_count_le_list(n);
        let j = recs.len() - 1;
        assert(UNPADDED_SIZE_MIN <= block_unpadded(recs, j) <= UNPADDED_SIZE_MAX);
        lemma_vli_size_bounds(block_unpadded(recs, j) as u64);
    }
}

proof fn lemma_sum_count_le_list(ss: Seq<index_stream>)
    requires
        forall|k: int| 0 <= k < ss.len() ==> #[trigger] stream_wf(ss[k]),
    ensures
        sum_count(ss) <= sum_list(ss),
        forall|k: int| 0 <= k < ss.len() ==> #[trigger] ss[k].record_count <= sum_count(ss),
    decreases ss.len(),
{
    if ss.len() > 0 {
        let n = ss.drop_last();
        assert forall|k: int| 0 <= k < n.len() implies #[trigger] stream_wf(n[k]) by {
            assert(n[k] == ss[k]);
            assert(stream_wf(ss[k]));
        }
        lemma_sum_count_le_list(n);
        lemma_sum_total_le_own(n);
        assert(stream_wf(ss[ss.len() - 1]));
        lemma_count_le_list(ss.last().records@);
        assert forall|k: int| 0 <= k < ss.len() implies #[trigger] ss[k].record_count <= sum_count(ss) by {
            if k < ss.len() - 1 {
                assert(n[k] == ss[k]);
            }
        }
    }
}

proof fn lemma_list_le_total(ss: Seq<index_stream>)
    ensures
        forall|k: int| 0 <= k < ss.len() ==> #[trigger] ss[k].index_list_size <= sum_list(ss),
    decreases ss.len(),
{
    if ss.len() > 0 {
        lemma_list_le_total(ss.drop_last());
        lemma_sum_total_le_own(ss.drop_last());
        assert forall|k: int| 0 <= k < ss.len() implies #[trigger] ss[k].index_list_size <= sum_list(ss) by {
            if k < ss.len() - 1 {
                assert(ss.drop_last()[k] == ss[k]);
            }
        }
    }
}

/// Sets the number of Records the next group is allocated for: `records`,
/// at most `PREALLOC_MAX`, or the default group size for 0.
pub fn lzma_index_prealloc(i: &mut lzma_index_s, records: u64)
    requires
        old(i).wf(),
    ensures
        final(i).wf(),
        final(i).prealloc == (if records == 0 {
            INDEX_GROUP_SIZE as u64
        } else if records > PREALLOC_MAX {
            PREALLOC_MAX as u64
        } else {
            records
        }),
        final(i).streams@ == old(i).streams@,
        final(i).uncompressed_size == old(i).uncompressed_size,
        final(i).total_size == old(i).total_size,
        final(i).record_count == old(i).record_count,
        final(i).index_list_size == old(i).index_list_size,
        final(i).checks == old(i).checks,
{
    proof {
        reveal(lzma_index_s::wf);
    }
    let mut r = records;
    if r > PREALLOC_MAX as u64 {
        r = PREALLOC_MAX as u64;
    }
    if r == 0 {
        r = INDEX_GROUP_SIZE as u64;
    }
    i.prealloc = r as usize;
}

/// Number of groups of Records that `blocks` Blocks need.
pub open spec fn groups_for(blocks: u64) -> int {
    (blocks + INDEX_GROUP_SIZE - 1) / (INDEX_GROUP_SIZE as int)
}

/// Memory an Index of `streams` Streams and `blocks` Blocks needs, on a
/// 64-bit target; `u64::MAX` for no Stream, too many Streams or Blocks, or
/// a sum that does not fit.
pub open spec fn memusage_spec(streams: u64, blocks: u64) -> u64 {
    let stream_base = INDEX_STREAM_BYTES + INDEX_GROUP_HEADER_BYTES + 2 * ALLOC_OVERHEAD;
    let group_base = INDEX_GROUP_HEADER_BYTES + INDEX_GROUP_SIZE * INDEX_RECORD_BYTES
        + ALLOC_OVERHEAD;
    let total = INDEX_BYTES + ALLOC_OVERHEAD + streams * stream_base + groups_for(blocks)
        * group_base;
    if streams == 0 || streams > u32::MAX || blocks > LZMA_VLI_MAX || total > u64::MAX {
        u64::MAX
    } else {
        total as u64
    }
}

/// Memory an Index of `streams` Streams and `blocks` Blocks needs.
pub fn lzma_index_memusage(streams: u64, blocks: u64) -> (r: u64)
    ensures
        r == memusage_spec(streams, blocks),
{
    let stream_base: u64 = INDEX_STREAM_BYTES + INDEX_GROUP_HEADER_BYTES + 2 * ALLOC_OVERHEAD;
    let group_base: u64 = INDEX_GROUP_HEADER_BYTES + (INDEX_GROUP_SIZE as u64) * INDEX_RECORD_BYTES
        + ALLOC_OVERHEAD;
    let index_base: u64 = INDEX_BYTES + ALLOC_OVERHEAD;
    let limit: u64 = u64::MAX - index_base;
    if streams == 0 || streams > u32::MAX as u64 || blocks > LZMA_VLI_MAX {
        return u64::MAX;
    }
    let groups: u64 = (blocks + INDEX_GROUP_SIZE as u64 - 1) / INDEX_GROUP_SIZE as u64;
    assert(groups == groups_for(blocks));
    if streams > limit / stream_base || groups > limit / group_base {
        proof {
            if streams > limit / stream_base {
                assert(streams * stream_base > limit) by (nonlinear_arith)
                    requires
                        streams > limit / stream_base,
                        stream_base > 0,
                ;
            } else {
                assert(groups * group_base > limit) by (nonlinear_arith)
                    requires
                        groups > limit / group_base,
                        group_base > 0,
                ;
            }
            assert(streams * stream_base >= 0) by (nonlinear_arith);
            assert(groups * group_base >= 0) by (nonlinear_arith);
        }
        return u64::MAX;
    }
    proof {
        assert(streams * stream_base <= limit) by (nonlinear_arith)
            requires
                streams <= limit / stream_base,
                stream_base > 0,
        ;
        assert(groups * group_base <= limit) by (nonlinear_arith)
            requires
                groups <= limit / group_base,
                group_base > 0,
        ;
    }
    let streams_mem: u64 = streams * stream_base;
    let groups_mem: u64 = groups * group_base;
    if limit - streams_mem < groups_mem {
        return u64::MAX;
    }
    index_base + streams_mem + groups_mem
}

/// Memory the Index `i` needs.
pub fn lzma_index_memused(i: &lzma_index_s) -> (r: u64)
    requires
        i.wf(),
    ensures
        r == memusage_spec(i.streams@.len() as u64, i.record_count),
{
    lzma_index_memusage(i.streams.len() as u64, i.record_count)
}

/// Number of Blocks in the Index.
pub fn lzma_index_block_count(i: &lzma_index_s) -> (r: u64)
    ensures
        r == i.record_count,
{
    i.record_count
}

/// Number of Streams in the Index.
pub fn lzma_index_stream_count(i: &lzma_index_s) -> (r: u64)
    ensures
        r == i.streams@.len(),
{
    i.streams.len() as u64
}

/// Size of the Index field that would describe every Block of `i` in one
/// Stream.
pub fn lzma_index_size(i: &lzma_index_s) -> (r: u64)
    requires
        i.wf(),
    ensures
        r == index_size(i.record_count, i.index_list_size),
{
    proof {
        lemma_index_bounds(i);
    }
    index_size_of(i.record_count, i.index_list_size)
}

/// Sum of the Total Sizes of the Blocks.
pub fn lzma_index_total_size(i: &lzma_index_s) -> (r: u64)
    ensures
        r == i.total_size,
{
    i.total_size
}

/// Size of a Stream that would hold every Block of `i`: Stream Header,
/// Blocks, Index and Stream Footer.
pub fn lzma_index_stream_size(i: &lzma_index_s) -> (r: u64)
    requires
        i.wf(),
    ensures
        r == 2 * LZMA_STREAM_HEADER_SIZE + i.total_size + index_size(
            i.record_count,
            i.index_list_size,
        ),
{
    proof {
        lemma_index_bounds(i);
    }
    (LZMA_STREAM_HEADER_SIZE as u64) + i.total_size + index_size_of(i.record_count, i.index_list_size)
        + LZMA_STREAM_HEADER_SIZE as u64
}

/// Size of the file that the Index describes, up to the end of its last
/// Stream and the Stream Padding after it.
pub fn lzma_index_file_size(i: &lzma_index_s) -> (r: u64)
    requires
        i.wf(),
    ensures
        r == i.last_stream().node.compressed_base + stream_own_size(i.last_stream()),
{
    proof {
        lemma_index_bounds(i);
    }
    let n = i.streams.len() - 1;
    let s = &i.streams[n];
    let unpadded_sum = if s.records.len() == 0 {
        0
    } else {
        s.records[s.records.len() - 1].unpadded_sum
    };
    let isz = index_size_of(s.record_count, s.index_list_size);
    s.node.compressed_base + (2 * LZMA_STREAM_HEADER_SIZE) as u64 + s.stream_padding + vli_ceil4(
        unpadded_sum,
    ) + isz
}

/// Sum of the uncompressed sizes of the Blocks.
pub fn lzma_index_uncompressed_size(i: &lzma_index_s) -> (r: u64)
    ensures
        r == i.uncompressed_size,
{
    i.uncompressed_size
}

/// Bit mask of the checks of the Streams: those of all Streams but the last
/// as recorded, and that of the last when its Stream Flags are known.
pub fn lzma_index_checks(i: &lzma_index_s) -> (r: u32)
    requires
        i.wf(),
    ensures
        r == (if unknown_flags(i.last_stream().stream_flags) {
            i.checks
        } else {
            i.checks | (1u32 << i.last_stream().stream_flags.check)
        }),
{
    proof {
        lemma_index_bounds(i);
    }
    let s = &i.streams[i.streams.len() - 1];
    let mut checks = i.checks;
    if s.stream_flags.version != u32::MAX {
        checks = checks | (1u32 << s.stream_flags.check);
    }
    checks
}

/// Size of the Index Padding of an Index that would describe every Block of
/// `i` in one Stream.
pub fn lzma_index_padding_size(i: &lzma_index_s) -> (r: u32)
    requires
        i.wf(),
    ensures
        r == (4 - index_size_unpadded(i.record_count, i.index_list_size) % 4) % 4,
{
    proof {
        lemma_index_bounds(i);
    }
    let u = index_size_unpadded_of(i.record_count, i.index_list_size);
    ((4 - u % 4) % 4) as u32
}

/// What appending a Block of Unpadded Size `unpadded` and uncompressed size
/// `uncompressed` to the last Stream of `i` returns: `LZMA_PROG_ERROR` for
/// sizes out of range, `LZMA_DATA_ERROR` when a size of the Stream, of the
/// file or of the Index would grow too big, else `LZMA_OK`.
pub open spec fn append_result(i: lzma_index_s, unpadded: u64, uncompressed: u64) -> u32 {
    let s = i.last_stream();
    let cb = ceil4(stream_unpadded_sum(s));
    let ub = stream_uncompressed(s);
    let add = vli_size_spec(unpadded) + vli_size_spec(uncompressed);
    if unpadded < UNPADDED_SIZE_MIN || unpadded > UNPADDED_SIZE_MAX || uncompressed > LZMA_VLI_MAX {
        LZMA_PROG_ERROR
    } else if ub + uncompressed > LZMA_VLI_MAX {
        LZMA_DATA_ERROR
    } else if cb + unpadded > UNPADDED_SIZE_MAX {
        LZMA_DATA_ERROR
    } else if s.node.compressed_base + 2 * LZMA_STREAM_HEADER_SIZE + s.stream_padding + ceil4(
        cb + unpadded,
    ) + index_size((s.record_count + 1) as u64, (s.index_list_size + add) as u64) > LZMA_VLI_MAX {
        LZMA_DATA_ERROR
    } else if index_size((i.record_count + 1) as u64, (i.index_list_size + add) as u64)
        > LZMA_BACKWARD_SIZE_MAX {
        LZMA_DATA_ERROR
    } else {
        LZMA_OK
    }
}

/// How one append of a Block with the given sizes leaves the sums of an
/// Index: one more Block, its Total Size and Uncompressed Size added, and its
/// Record in the list, when the append is accepted; nothing changed when it
/// is refused.
pub open spec fn append_sums(i: lzma_index_s, i2: lzma_index_s, unpadded: u64, uncompressed: u64)
    -> bool {
    if append_result(i, unpadded, uncompressed) == LZMA_OK {
        &&& i2.record_count == i.record_count + 1
        &&& i2.total_size == i.total_size + ceil4(unpadded as int)
        &&& i2.uncompressed_size == i.uncompressed_size + uncompressed
        &&& i2.index_list_size == i.index_list_size + vli_size_spec(unpadded) + vli_size_spec(
            uncompressed,
        )
    } else {
        i2 == i
    }
}

/// The last group of `groups` has no room left (or there is none).
pub open spec fn needs_new_group(groups: Seq<index_group>) -> bool {
    groups.len() == 0 || groups.last().last + 1 >= groups.last().allocated
}

proof fn lemma_ceil4_shift(a: int, b: int)
    requires
        a % 4 == 0,
        a >= 0,
        b >= 0,
    ensures
        ceil4(a + b) == a + ceil4(b),
        ceil4(b) >= b,
        ceil4(b) < b + 4,
        ceil4(b) % 4 == 0,
{
    assert((a + b) % 4 == b % 4);
}

proof fn lemma_records_push(recs: Seq<index_record>, r: index_record, unpadded: u64, uncompressed: u64)
    requires
        records_valid(recs),
        r.uncompressed_sum == (if recs.len() == 0 { 0 } else { recs.last().uncompressed_sum as int })
            + uncompressed,
        r.unpadded_sum == (if recs.len() == 0 { 0 } else { ceil4(recs.last().unpadded_sum as int) })
            + unpadded,
        UNPADDED_SIZE_MIN <= unpadded <= UNPADDED_SIZE_MAX,
        r.unpadded_sum <= UNPADDED_SIZE_MAX,
        r.uncompressed_sum <= LZMA_VLI_MAX,
    ensures
        records_valid(recs.push(r)),
        block_unpadded(recs.push(r), recs.len() as int) == unpadded,
        block_uncompressed(recs.push(r), recs.len() as int) == uncompressed,
        list_size(recs.push(r)) == list_size(recs) + vli_size_spec(unpadded) + vli_size_spec(
            uncompressed,
        ),
{
    let n = recs.push(r);
    assert(n.drop_last() =~= recs);
    assert forall|j: int| 0 <= j < n.len() implies {
        &&& UNPADDED_SIZE_MIN <= #[trigger] block_unpadded(n, j) <= UNPADDED_SIZE_MAX
        &&& block_uncompressed(n, j) >= 0
        &&& n[j].unpadded_sum <= UNPADDED_SIZE_MAX
        &&& n[j].uncompressed_sum <= LZMA_VLI_MAX
    } by {
        if j < recs.len() {
            assert(n[j] == recs[j]);
            if j > 0 {
                assert(n[j - 1] == recs[j - 1]);
            }
            assert(block_unpadded(n, j) == block_unpadded(recs, j));
        }
    }
}

proof fn lemma_groups_room(groups: Seq<index_group>)
    requires
        groups_valid(groups),
        !needs_new_group(groups),
    ensures
        ({
            let g = groups.last();
            let ng = groups.update(groups.len() - 1, index_group { last: (g.last + 1) as usize, ..g });
            &&& groups_valid(ng)
            &&& group_used(ng) == group_used(groups) + 1
        }),
{
    let n = groups.len() - 1;
    let g = groups.last();
    let ng = groups.update(n, index_group { last: (g.last + 1) as usize, ..g });
    assert(ng.drop_last() =~= groups.drop_last());
    assert forall|k: int| 0 <= k < ng.len() implies #[trigger] ng[k].last < ng[k].allocated
        && ng[k].number_base == 1 + group_used(ng.take(k)) by {
        assert(ng.take(k) =~= groups.take(k));
    }
}

proof fn lemma_groups_push(groups: Seq<index_group>, g: index_group)
    requires
        groups_valid(groups),
        g.last == 0,
        g.allocated >= 1,
        g.number_base == 1 + group_used(groups),
    ensures
        groups_valid(groups.push(g)),
        group_used(groups.push(g)) == group_used(groups) + 1,
{
    let ng = groups.push(g);
    assert(ng.drop_last() =~= groups);
    assert forall|k: int| 0 <= k < ng.len() implies #[trigger] ng[k].last < ng[k].allocated
        && ng[k].number_base == 1 + group_used(ng.take(k)) by {
        if k < groups.len() {
            assert(ng.take(k) =~= groups.take(k));
        } else {
            assert(ng.take(k) =~= groups);
        }
    }
}

proof fn lemma_replace_last(ss: Seq<index_stream>, s2: index_stream)
    requires
        ss.len() >= 1,
    ensures
        ({
            let n2 = ss.drop_last().push(s2);
            &&& n2.drop_last() =~= ss.drop_last()
            &&& sum_uncompressed(n2) == sum_uncompressed(ss.drop_last()) + stream_uncompressed(s2)
            &&& sum_total(n2) == sum_total(ss.drop_last()) + ceil4(stream_unpadded_sum(s2))
            &&& sum_count(n2) == sum_count(ss.drop_last()) + s2.record_count
            &&& sum_list(n2) == sum_list(ss.drop_last()) + s2.index_list_size
            &&& sum_own(n2) == sum_own(ss.drop_last()) + stream_own_size(s2)
            &&& forall|k: int| 0 <= k < ss.len() ==> #[trigger] n2.take(k) =~= ss.take(k)
        }),
{
    let n2 = ss.drop_last().push(s2);
    assert(n2.drop_last() =~= ss.drop_last());
    assert forall|k: int| 0 <= k < ss.len() implies #[trigger] n2.take(k) =~= ss.take(k) by {
        assert forall|j: int| 0 <= j < k implies n2.take(k)[j] == ss.take(k)[j] by {
            assert(n2[j] == ss.drop_last()[j]);
        }
    }
}

proof fn lemma_index_replace_last(i0: lzma_index_s, i1: lzma_index_s, s: index_stream)
    requires
        i0.wf(),
        i1.streams@ == i0.streams@.drop_last().push(s),
        stream_wf(s),
        s.number == i0.last_stream().number,
        s.node == i0.last_stream().node,
        s.block_number_base == i0.last_stream().block_number_base,
        i1.uncompressed_size == i0.uncompressed_size + stream_uncompressed(s) - stream_uncompressed(
            i0.last_stream(),
        ),
        i1.total_size == i0.total_size + ceil4(stream_unpadded_sum(s)) - ceil4(
            stream_unpadded_sum(i0.last_stream()),
        ),
        i1.record_count == i0.record_count + s.record_count - i0.last_stream().record_count,
        i1.index_list_size == i0.index_list_size + s.index_list_size - i0.last_stream().index_list_size,
        index_size(i1.record_count, i1.index_list_size) <= LZMA_BACKWARD_SIZE_MAX,
        1 <= i1.prealloc <= PREALLOC_MAX,
    ensures
        i1.wf(),
{
    reveal(lzma_index_s::wf);
    let ss = i0.streams@;
    let n2 = i1.streams@;
    let n = ss.len() - 1;
    lemma_replace_last(ss, s);
    assert(ss.take(n) =~= ss.drop_last());
    assert(stream_placed(ss, n));
    assert forall|k: int| 0 <= k < n2.len() implies #[trigger] stream_placed(n2, k) by {
        assert(stream_placed(ss, k));
        if k < n {
            assert(n2[k] == ss[k]);
        }
    }
}

proof fn lemma_stream_push(
    s0: index_stream,
    s: index_stream,
    rec: index_record,
    unpadded: u64,
    uncompressed: u64,
    add: int,
)
    requires
        stream_wf(s0),
        s.records@ == s0.records@.push(rec),
        rec.uncompressed_sum == stream_uncompressed(s0) + uncompressed,
        rec.unpadded_sum == ceil4(stream_unpadded_sum(s0)) + unpadded,
        UNPADDED_SIZE_MIN <= unpadded <= UNPADDED_SIZE_MAX,
        rec.unpadded_sum <= UNPADDED_SIZE_MAX,
        rec.uncompressed_sum <= LZMA_VLI_MAX,
        add == vli_size_spec(unpadded) + vli_size_spec(uncompressed),
        s.record_count == s0.record_count + 1,
        s.index_list_size == s0.index_list_size + add,
        groups_valid(s.groups@),
        group_used(s.groups@) == group_used(s0.groups@) + 1,
        s.stream_padding == s0.stream_padding,
        s.stream_flags == s0.stream_flags,
        s.node == s0.node,
        s.node.compressed_base + stream_own_size(s) <= LZMA_VLI_MAX,
    ensures
        stream_wf(s),
        stream_uncompressed(s) == rec.uncompressed_sum,
        stream_unpadded_sum(s) == rec.unpadded_sum,
        block_unpadded(s.records@, s0.records@.len() as int) == unpadded,
        block_uncompressed(s.records@, s0.records@.len() as int) == uncompressed,
{
    lemma_records_push(s0.records@, rec, unpadded, uncompressed);
}

/// Appends a Block of Unpadded Size `unpadded_size` and uncompressed size
/// `uncompressed_size` to the last Stream of `i`; the result is
/// `append_result(i, ..)`, and `i` changes only on `LZMA_OK`.
#[verifier::rlimit(100)]
#[verifier::spinoff_prover]
pub fn lzma_index_append(i: &mut lzma_index_s, unpadded_size: u64, uncompressed_size: u64) -> (r: u32)
    requires
        old(i).wf(),
    ensures
        final(i).wf(),
        r == append_result(*old(i), unpadded_size, uncompressed_size),
        r != LZMA_OK ==> *final(i) == *old(i),
        append_sums(*old(i), *final(i), unpadded_size, uncompressed_size),
        r == LZMA_OK ==> {
            let s = old(i).last_stream();
            let t = final(i).last_stream();
            let add = vli_size_spec(unpadded_size) + vli_size_spec(uncompressed_size);
            &&& final(i).streams@.len() == old(i).streams@.len()
            &&& final(i).streams@.drop_last() == old(i).streams@.drop_last()
            &&& t.records@ == s.records@.push(
                index_record {
                    uncompressed_sum: (stream_uncompressed(s) + uncompressed_size) as u64,
                    unpadded_sum: (ceil4(stream_unpadded_sum(s)) + unpadded_size) as u64,
                },
            )
            &&& block_unpadded(t.records@, s.records@.len() as int) == unpadded_size
            &&& block_uncompressed(t.records@, s.records@.len() as int) == uncompressed_size
            &&& t.record_count == s.record_count + 1
            &&& t.index_list_size == s.index_list_size + add
            &&& t.node == s.node
            &&& t.number == s.number
            &&& t.block_number_base == s.block_number_base
            &&& t.stream_flags == s.stream_flags
            &&& t.stream_padding == s.stream_padding
            &&& final(i).record_count == old(i).record_count + 1
            &&& final(i).uncompressed_size == old(i).uncompressed_size + uncompressed_size
            &&& final(i).total_size == old(i).total_size + ceil4(unpadded_size as int)
            &&& final(i).index_list_size == old(i).index_list_size + add
            &&& final(i).checks == old(i).checks
            &&& final(i).prealloc == (if needs_new_group(s.groups@) {
                INDEX_GROUP_SIZE
            } else {
                old(i).prealloc
            })
        },
{
    proof {
        lemma_index_bounds(i);
    }
    if unpadded_size < UNPADDED_SIZE_MIN || unpadded_size > UNPADDED_SIZE_MAX || uncompressed_size
        > LZMA_VLI_MAX {
        return LZMA_PROG_ERROR;
    }
    let ghost i0 = *i;
    let ghost ss = i.streams@;
    let n = i.streams.len() - 1;
    let ghost s0 = ss[n as int];
    proof {
        assert(stream_placed(ss, n as int));
    }
    let nrec = i.streams[n].records.len();
    let (compressed_base, uncompressed_base) = if nrec == 0 {
        (0u64, 0u64)
    } else {
        let last = i.streams[n].records[nrec - 1];
        (vli_ceil4(last.unpadded_sum), last.uncompressed_sum)
    };
    assert(compressed_base == ceil4(stream_unpadded_sum(s0)));
    assert(uncompressed_base == stream_uncompressed(s0));
    proof {
        lemma_vli_size_bounds(unpadded_size);
        lemma_vli_size_bounds(uncompressed_size);
    }
    let add = lzma_vli_size(unpadded_size) as u64 + lzma_vli_size(uncompressed_size) as u64;
    if uncompressed_base + uncompressed_size > LZMA_VLI_MAX {
        return LZMA_DATA_ERROR;
    }
    if compressed_base + unpadded_size > UNPADDED_SIZE_MAX {
        return LZMA_DATA_ERROR;
    }
    let s_base = i.streams[n].node.compressed_base;
    let s_pad = i.streams[n].stream_padding;
    let s_count = i.streams[n].record_count;
    let s_list = i.streams[n].index_list_size;
    proof {
        lemma_list_le_total(ss);
        assert(s_list <= i.index_list_size);
    }
    let new_unpadded_sum = compressed_base + unpadded_size;
    let file_size = s_base + (2 * LZMA_STREAM_HEADER_SIZE) as u64 + s_pad + vli_ceil4(new_unpadded_sum);
    if file_size > LZMA_VLI_MAX {
        return LZMA_DATA_ERROR;
    }
    let isz = index_size_of(s_count + 1, s_list + add);
    proof {
        lemma_vli_size_bounds((s_count + 1) as u64);
        assert(isz <= s_list + add + 20);
    }
    if file_size + isz > LZMA_VLI_MAX {
        return LZMA_DATA_ERROR;
    }
    if index_size_of(i.record_count + 1, i.index_list_size + add) > LZMA_BACKWARD_SIZE_MAX {
        return LZMA_DATA_ERROR;
    }
    let mut s = i.streams.pop().unwrap();
    assert(s == s0);
    let ghost old_groups = s.groups@;
    let ng = s.groups.len();
    let room = ng > 0 && s.groups[ng - 1].last + 1 < s.groups[ng - 1].allocated;
    if room {
        let mut g = s.groups.pop().unwrap();
        proof {
            lemma_groups_room(old_groups);
        }
        g.last = g.last + 1;
        s.groups.push(g);
        assert(s.groups@ =~= old_groups.update(old_groups.len() - 1, g));
    } else {
        proof {
            lemma_groups_push(
                old_groups,
                index_group { number_base: (s.record_count + 1) as u64, allocated: i.prealloc, last: 0 },
            );
        }
        s.groups.push(index_group { number_base: s.record_count + 1, allocated: i.prealloc, last: 0 });
        i.prealloc = INDEX_GROUP_SIZE;
    }
    let rec = index_record {
        uncompressed_sum: uncompressed_base + uncompressed_size,
        unpadded_sum: new_unpadded_sum,
    };
    s.records.push(rec);
    s.record_count = s.record_count + 1;
    s.index_list_size = s.index_list_size + add;
    proof {
        lemma_ceil4_shift(compressed_base as int, unpadded_size as int);
        lemma_stream_push(s0, s, rec, unpadded_size, uncompressed_size, add as int);
    }
    i.streams.push(s);
    i.total_size = i.total_size + vli_ceil4(unpadded_size);
    i.uncompressed_size = i.uncompressed_size + uncompressed_size;
    i.record_count = i.record_count + 1;
    i.index_list_size = i.index_list_size + add;
    proof {
        assert(i.streams@ =~= ss.drop_last().push(s));
        lemma_index_replace_last(i0, *i, s);
    }
    LZMA_OK
}

/// What setting the Stream Flags `flags` of the last Stream returns: the
/// result of checking `flags` against themselves.
pub open spec fn flags_result(flags: StreamFlags) -> u32 {
    if flags.version != 0 {
        crate::types::LZMA_OPTIONS_ERROR
    } else if flags.check > crate::types::LZMA_CHECK_ID_MAX {
        LZMA_PROG_ERROR
    } else if flags.backward_size != LZMA_VLI_UNKNOWN && !backward_size_valid(flags) {
        LZMA_PROG_ERROR
    } else {
        LZMA_OK
    }
}

/// Sets the Stream Flags of the last Stream of `i`, once they check out.
pub fn lzma_index_stream_flags(i: &mut lzma_index_s, stream_flags: &StreamFlags) -> (r: u32)
    requires
        old(i).wf(),
    ensures
        final(i).wf(),
        r == flags_result(*stream_flags),
        r != LZMA_OK ==> *final(i) == *old(i),
        r == LZMA_OK ==> {
            &&& final(i).streams@.len() == old(i).streams@.len()
            &&& final(i).streams@.drop_last() == old(i).streams@.drop_last()
            &&& final(i).last_stream() == (index_stream { stream_flags: *stream_flags, ..old(i).last_stream() })
            &&& final(i).uncompressed_size == old(i).uncompressed_size
            &&& final(i).total_size == old(i).total_size
            &&& final(i).record_count == old(i).record_count
            &&& final(i).index_list_size == old(i).index_list_size
            &&& final(i).prealloc == old(i).prealloc
            &&& final(i).checks == old(i).checks
        },
{
    let ret = lzma_stream_flags_compare(stream_flags, stream_flags);
    if ret != LZMA_OK {
        return ret;
    }
    proof {
        lemma_index_bounds(i);
    }
    let ghost i0 = *i;
    let ghost ss = i.streams@;
    let mut s = i.streams.pop().unwrap();
    s.stream_flags = *stream_flags;
    i.streams.push(s);
    proof {
        assert(i.streams@ =~= ss.drop_last().push(s));
        lemma_index_replace_last(i0, *i, s);
    }
    LZMA_OK
}

/// What setting the Stream Padding of the last Stream to `padding`
/// returns: `LZMA_PROG_ERROR` for a padding too big or not a multiple of
/// four, `LZMA_DATA_ERROR` when the file would grow too big, else `LZMA_OK`.
pub open spec fn padding_result(i: lzma_index_s, padding: u64) -> u32 {
    let s = i.last_stream();
    if padding > LZMA_VLI_MAX || padding % 4 != 0 {
        LZMA_PROG_ERROR
    } else if s.node.compressed_base + stream_own_size(s) - s.stream_padding + padding > LZMA_VLI_MAX {
        LZMA_DATA_ERROR
    } else {
        LZMA_OK
    }
}

/// Sets the size of the Stream Padding after the last Stream of `i`.
pub fn lzma_index_stream_padding(i: &mut lzma_index_s, stream_padding: u64) -> (r: u32)
    requires
        old(i).wf(),
    ensures
        final(i).wf(),
        r == padding_result(*old(i), stream_padding),
        r != LZMA_OK ==> *final(i) == *old(i),
        r == LZMA_OK ==> {
            &&& final(i).streams@.len() == old(i).streams@.len()
            &&& final(i).streams@.drop_last() == old(i).streams@.drop_last()
            &&& final(i).last_stream() == (index_stream { stream_padding, ..old(i).last_stream() })
            &&& final(i).uncompressed_size == old(i).uncompressed_size
            &&& final(i).total_size == old(i).total_size
            &&& final(i).record_count == old(i).record_count
            &&& final(i).index_list_size == old(i).index_list_size
            &&& final(i).prealloc == old(i).prealloc
            &&& final(i).checks == old(i).checks
        },
{
    if stream_padding > LZMA_VLI_MAX || stream_padding & 3 != 0 {
        proof {
            assert(stream_padding & 3 == stream_padding % 4) by (bit_vector);
        }
        return LZMA_PROG_ERROR;
    }
    proof {
        assert(stream_padding & 3 == stream_padding % 4) by (bit_vector);
        lemma_index_bounds(i);
    }
    let size = lzma_index_file_size(i);
    let old_padding = i.streams[i.streams.len() - 1].stream_padding;
    if size - old_padding + stream_padding > LZMA_VLI_MAX {
        return LZMA_DATA_ERROR;
    }
    let ghost i0 = *i;
    let ghost ss = i.streams@;
    let mut s = i.streams.pop().unwrap();
    s.stream_padding = stream_padding;
    i.streams.push(s);
    proof {
        assert(i.streams@ =~= ss.drop_last().push(s));
        lemma_index_replace_last(i0, *i, s);
    }
    LZMA_OK
}

/// File size of the Index: up to the end of its last Stream and the Stream
/// Padding after it.
pub open spec fn file_size_spec(i: lzma_index_s) -> int {
    i.last_stream().node.compressed_base + stream_own_size(i.last_stream())
}

/// The file size of an Index of one Stream: its headers, its padding, its
/// Blocks and its own Index.
pub proof fn lemma_single_stream_size(i: lzma_index_s)
    requires
        i.wf(),
        i.streams@.len() == 1,
    ensures
        file_size_spec(i) == 2 * LZMA_STREAM_HEADER_SIZE + i.last_stream().stream_padding
            + i.total_size + index_size(i.last_stream().record_count, i.last_stream().index_list_size),
{
    reveal(lzma_index_s::wf);
    let ss = i.streams@;
    assert(stream_placed(ss, 0));
    assert(ss.take(0) =~= Seq::<index_stream>::empty());
    assert(ss.drop_last() =~= Seq::<index_stream>::empty());
    assert(sum_total(ss) == sum_total(ss.drop_last()) + ceil4(stream_unpadded_sum(ss.last())));
}

/// What concatenating `src` after `dest` returns: `LZMA_DATA_ERROR` when the
/// file, the uncompressed data or the Index would grow too big, else
/// `LZMA_OK`.
pub open spec fn cat_result(dest: lzma_index_s, src: lzma_index_s) -> u32 {
    if file_size_spec(dest) + file_size_spec(src) > LZMA_VLI_MAX || dest.uncompressed_size
        + src.uncompressed_size > LZMA_VLI_MAX {
        LZMA_DATA_ERROR
    } else if ceil4(
        index_size_unpadded(dest.record_count, dest.index_list_size) + index_size_unpadded(
            src.record_count,
            src.index_list_size,
        ),
    ) > LZMA_BACKWARD_SIZE_MAX {
        LZMA_DATA_ERROR
    } else {
        LZMA_OK
    }
}

/// Stream `s` of an Index placed after another whose sizes `info` gives.
pub open spec fn shifted(s: index_stream, info: index_cat_info) -> index_stream {
    index_stream {
        node: index_tree_node_s {
            uncompressed_base: (s.node.uncompressed_base + info.uncompressed_size) as u64,
            compressed_base: (s.node.compressed_base + info.file_size) as u64,
        },
        number: (s.number + info.stream_number_add) as u32,
        block_number_base: (s.block_number_base + info.block_number_add) as u64,
        ..s
    }
}

/// The two Streams hold the same Blocks, Index sizes and padding.
pub open spec fn same_sizes(a: index_stream, b: index_stream) -> bool {
    &&& a.records@ == b.records@
    &&& a.record_count == b.record_count
    &&& a.index_list_size == b.index_list_size
    &&& a.stream_padding == b.stream_padding
}

proof fn lemma_sums_same(x: Seq<index_stream>, y: Seq<index_stream>)
    requires
        x.len() == y.len(),
        forall|k: int| 0 <= k < x.len() ==> #[trigger] same_sizes(x[k], y[k]),
    ensures
        sum_uncompressed(x) == sum_uncompressed(y),
        sum_total(x) == sum_total(y),
        sum_count(x) == sum_count(y),
        sum_list(x) == sum_list(y),
        sum_own(x) == sum_own(y),
    decreases x.len(),
{
    if x.len() > 0 {
        let n = x.len() - 1;
        assert forall|k: int| 0 <= k < n implies #[trigger] same_sizes(
            x.drop_last()[k],
            y.drop_last()[k],
        ) by {
            assert(same_sizes(x[k], y[k]));
        }
        lemma_sums_same(x.drop_last(), y.drop_last());
        assert(same_sizes(x[n], y[n]));
    }
}

proof fn lemma_sums_concat(a: Seq<index_stream>, b: Seq<index_stream>)
    ensures
        sum_uncompressed(a + b) == sum_uncompressed(a) + sum_uncompressed(b),
        sum_total(a + b) == sum_total(a) + sum_total(b),
        sum_count(a + b) == sum_count(a) + sum_count(b),
        sum_list(a + b) == sum_list(a) + sum_list(b),
        sum_own(a + b) == sum_own(a) + sum_own(b),
    decreases b.len(),
{
    if b.len() == 0 {
        assert(a + b =~= a);
    } else {
        assert((a + b).drop_last() =~= a + b.drop_last());
        lemma_sums_concat(a, b.drop_last());
    }
}

proof fn lemma_prefix_own(ss: Seq<index_stream>, k: int)
    requires
        0 <= k < ss.len(),
    ensures
        sum_own(ss.take(k)) + stream_own_size(ss[k]) <= sum_own(ss),
        sum_uncompressed(ss.take(k)) + stream_uncompressed(ss[k]) <= sum_uncompressed(ss),
    decreases ss.len(),
{
    lemma_sum_own_nonneg(ss);
    if k == ss.len() - 1 {
        assert(ss.take(k) =~= ss.drop_last());
    } else {
        lemma_prefix_own(ss.drop_last(), k);
        assert(ss.drop_last().take(k) =~= ss.take(k));
        assert(ss.drop_last()[k] == ss[k]);
        lemma_sum_own_nonneg(ss.drop_last());
        let l = ss.last();
        assert(stream_own_size(l) >= 0) by {
            assert(ceil4(stream_unpadded_sum(l)) >= 0);
            assert(index_size(l.record_count, l.index_list_size) >= 0);
        }
    }
}

proof fn lemma_sum_own_nonneg(ss: Seq<index_stream>)
    ensures
        sum_own(ss) >= 0,
        sum_uncompressed(ss) >= 0,
    decreases ss.len(),
{
    if ss.len() > 0 {
        lemma_sum_own_nonneg(ss.drop_last());
        let l = ss.last();
        assert(ceil4(stream_unpadded_sum(l)) >= 0);
        assert(index_size(l.record_count, l.index_list_size) >= 0);
    }
}

proof fn lemma_groups_shrink(groups: Seq<index_group>)
    requires
        groups_valid(groups),
        groups.len() > 0,
    ensures
        ({
            let g = groups.last();
            let ng = groups.update(groups.len() - 1, index_group { allocated: (g.last + 1) as usize, ..g });
            &&& groups_valid(ng)
            &&& group_used(ng) == group_used(groups)
        }),
{
    let n = groups.len() - 1;
    let g = groups.last();
    let ng = groups.update(n, index_group { allocated: (g.last + 1) as usize, ..g });
    assert(ng.drop_last() =~= groups.drop_last());
    assert forall|k: int| 0 <= k < ng.len() implies #[trigger] ng[k].last < ng[k].allocated
        && ng[k].number_base == 1 + group_used(ng.take(k)) by {
        assert(ng.take(k) =~= groups.take(k));
    }
}

proof fn lemma_ceil4_mono(a: int, b: int)
    requires
        a <= b,
    ensures
        ceil4(a) <= ceil4(b),
{
}

proof fn lemma_cat_index_size(dc: u64, dl: u64, sc: u64, sl: u64)
    requires
        dc <= dl,
        sc <= sl,
        index_size(dc, dl) <= LZMA_BACKWARD_SIZE_MAX,
        index_size(sc, sl) <= LZMA_BACKWARD_SIZE_MAX,
        ceil4(index_size_unpadded(dc, dl) + index_size_unpadded(sc, sl)) <= LZMA_BACKWARD_SIZE_MAX,
    ensures
        index_size((dc + sc) as u64, (dl + sl) as u64) <= LZMA_BACKWARD_SIZE_MAX,
{
    lemma_vli_size_bounds(dc);
    lemma_vli_size_bounds(sc);
    let v = (dc + sc) as u64;
    assert(v < 0x8_0000_0000);
    assert(v < 0x8_0000_0000u64 ==> v >> 35u64 == 0) by (bit_vector);
    crate::vli::lemma_encoding_len(v, 5);
    lemma_ceil4_mono(
        index_size_unpadded(v, (dl + sl) as u64),
        index_size_unpadded(dc, dl) + index_size_unpadded(sc, sl),
    );
}

/// The information that places the Streams of an Index after the Index
/// `dest`.
pub open spec fn cat_info(dest: lzma_index_s) -> index_cat_info {
    index_cat_info {
        uncompressed_size: dest.uncompressed_size,
        file_size: file_size_spec(dest) as u64,
        block_number_add: dest.record_count,
        stream_number_add: dest.streams@.len() as u32,
    }
}

/// The Streams of `src` placed after those of `dest`.
pub open spec fn shifted_streams(src: Seq<index_stream>, info: index_cat_info) -> Seq<index_stream> {
    Seq::new(src.len(), |j: int| shifted(src[j], info))
}

proof fn lemma_cat_placed_src(a: Seq<index_stream>, ss: Seq<index_stream>, info: index_cat_info, j: int)
    requires
        0 <= j < ss.len(),
        stream_placed(ss, j),
        sum_uncompressed(a) == info.uncompressed_size,
        sum_own(a) == info.file_size,
        sum_count(a) == info.block_number_add,
        a.len() == info.stream_number_add,
        info.file_size + sum_own(ss) <= LZMA_VLI_MAX,
        info.uncompressed_size + sum_uncompressed(ss) <= LZMA_VLI_MAX,
        a.len() + ss.len() <= u32::MAX,
        sum_count(a) + sum_count(ss) <= u64::MAX,
    ensures
        stream_placed(a + shifted_streams(ss, info), a.len() + j),
{
    let b = shifted_streams(ss, info);
    let rs = a + b;
    let k = a.len() + j;
    assert(rs[k] == shifted(ss[j], info));
    assert(rs.take(k) =~= a + b.take(j));
    assert forall|q: int| 0 <= q < j implies #[trigger] same_sizes(b.take(j)[q], ss.take(j)[q]) by {}
    lemma_sums_same(b.take(j), ss.take(j));
    lemma_sums_concat(a, b.take(j));
    lemma_prefix_own(ss, j);
    lemma_prefix_count(ss, j);
}

proof fn lemma_prefix_count(ss: Seq<index_stream>, k: int)
    requires
        0 <= k < ss.len(),
    ensures
        sum_count(ss.take(k)) <= sum_count(ss),
    decreases ss.len(),
{
    lemma_sum_total_le_own(ss);
    if k == ss.len() - 1 {
        assert(ss.take(k) =~= ss.drop_last());
    } else {
        lemma_prefix_count(ss.drop_last(), k);
        assert(ss.drop_last().take(k) =~= ss.take(k));
    }
}

proof fn lemma_cat_placed_dest(ds: Seq<index_stream>, dl: index_stream, b: Seq<index_stream>, k: int)
    requires
        1 <= ds.len(),
        0 <= k < ds.len(),
        stream_placed(ds, k),
        dl == (index_stream { groups: dl.groups, ..ds.last() }),
        groups_valid(dl.groups@),
        group_used(dl.groups@) == dl.records@.len(),
    ensures
        stream_placed(ds.drop_last().push(dl) + b, k),
{
    let a = ds.drop_last().push(dl);
    let rs = a + b;
    assert(rs.take(k) =~= ds.take(k));
    if k < ds.len() - 1 {
        assert(rs[k] == ds[k]);
    } else {
        assert(rs[k] == dl);
    }
}

#[verifier::rlimit(60)]
proof fn lemma_cat_wf(d0: lzma_index_s, dl: index_stream, src: lzma_index_s, r: lzma_index_s)
    requires
        d0.wf(),
        src.wf(),
        cat_result(d0, src) == LZMA_OK,
        d0.streams@.len() + src.streams@.len() <= u32::MAX,
        dl == (index_stream { groups: dl.groups, ..d0.last_stream() }),
        groups_valid(dl.groups@),
        group_used(dl.groups@) == dl.records@.len(),
        r.streams@ == d0.streams@.drop_last().push(dl) + shifted_streams(src.streams@, cat_info(d0)),
        r.uncompressed_size == d0.uncompressed_size + src.uncompressed_size,
        r.total_size == d0.total_size + src.total_size,
        r.record_count == d0.record_count + src.record_count,
        r.index_list_size == d0.index_list_size + src.index_list_size,
        r.prealloc == d0.prealloc,
    ensures
        r.wf(),
{
    lemma_index_bounds(&d0);
    lemma_index_bounds(&src);
    let info = cat_info(d0);
    let ds = d0.streams@;
    let n = ds.len() - 1;
    let a = ds.drop_last().push(dl);
    let ss = src.streams@;
    let b = shifted_streams(ss, info);
    let rs = r.streams@;
    assert(ds.take(n) =~= ds.drop_last());
    assert(a.drop_last() =~= ds.drop_last());
    assert forall|k: int| 0 <= k < a.len() implies #[trigger] same_sizes(a[k], ds[k]) by {}
    lemma_sums_same(a, ds);
    assert forall|k: int| 0 <= k < b.len() implies #[trigger] same_sizes(b[k], ss[k]) by {}
    lemma_sums_same(b, ss);
    lemma_sums_concat(a, b);
    reveal(lzma_index_s::wf);
    assert(stream_placed(ds, n));
    assert(sum_own(ds) == file_size_spec(d0));
    lemma_cat_index_size(d0.record_count, d0.index_list_size, src.record_count, src.index_list_size);
    lemma_sum_own_nonneg(ss);
    lemma_sum_total_le_own(ss);
    lemma_sum_total_le_own(ds);
    assert forall|k: int| 0 <= k < rs.len() implies #[trigger] stream_placed(rs, k) by {
        if k <= n {
            assert(stream_placed(ds, k));
            lemma_cat_placed_dest(ds, dl, b, k);
        } else {
            assert(stream_placed(ss, k - a.len()));
            lemma_cat_placed_src(a, ss, info, k - a.len());
            assert(a + shifted_streams(ss, info) == rs);
        }
    }
    assert(rs.drop_last() =~= a + b.drop_last());
    lemma_sums_concat(a, b.drop_last());
    assert forall|q: int| 0 <= q < b.len() - 1 implies #[trigger] same_sizes(b.drop_last()[q], ss.drop_last()[q]) by {}
    lemma_sums_same(b.drop_last(), ss.drop_last());
    lemma_sum_own_nonneg(ss);
    let l = ss.last();
    assert(stream_placed(ss, ss.len() - 1));
    assert(sum_uncompressed(ss) == sum_uncompressed(ss.drop_last()) + stream_uncompressed(l));
}

proof fn lemma_src_bounds(ss: Seq<index_stream>, k: int)
    requires
        0 <= k < ss.len(),
        stream_placed(ss, k),
    ensures
        ss[k].node.uncompressed_base <= sum_uncompressed(ss),
        ss[k].node.compressed_base + stream_own_size(ss[k]) <= sum_own(ss),
        ss[k].block_number_base <= sum_count(ss),
{
    lemma_prefix_own(ss, k);
    lemma_prefix_count(ss, k);
    assert(stream_uncompressed(ss[k]) >= 0);
}

/// The shifts of `info` keep every field of the Streams `ss` in range.
pub open spec fn shift_fits(ss: Seq<index_stream>, info: index_cat_info) -> bool {
    forall|k: int|
        0 <= k < ss.len() ==> {
            &&& #[trigger] ss[k].node.uncompressed_base + info.uncompressed_size <= u64::MAX
            &&& ss[k].node.compressed_base + info.file_size <= u64::MAX
            &&& ss[k].number + info.stream_number_add <= u32::MAX
            &&& ss[k].block_number_base + info.block_number_add <= u64::MAX
        }
}

fn append_shifted(dst: &mut Vec<index_stream>, src: Vec<index_stream>, info: index_cat_info)
    requires
        shift_fits(src@, info),
    ensures
        final(dst)@ == old(dst)@ + shifted_streams(src@, info),
{
    let ghost a = dst@;
    let ghost s0 = src@;
    let mut src = src;
    let m = src.len();
    let mut j: usize = 0;
    while j < m
        invariant
            m == s0.len(),
            j <= m,
            src@ == s0.skip(j as int),
            dst@ == a + shifted_streams(s0, info).take(j as int),
            shift_fits(s0, info),
        decreases m - j,
    {
        let mut s = src.remove(0);
        assert(s == s0[j as int]);
        assert(s0[j as int].node.uncompressed_base + info.uncompressed_size <= u64::MAX);
        s.node.uncompressed_base = s.node.uncompressed_base + info.uncompressed_size;
        s.node.compressed_base = s.node.compressed_base + info.file_size;
        s.number = s.number + info.stream_number_add;
        s.block_number_base = s.block_number_base + info.block_number_add;
        assert(s == shifted(s0[j as int], info));
        dst.push(s);
        j = j + 1;
        proof {
            assert(src@ =~= s0.skip(j as int));
            assert(dst@ =~= a + shifted_streams(s0, info).take(j as int));
        }
    }
    assert(shifted_streams(s0, info).take(m as int) =~= shifted_streams(s0, info));
}

proof fn lemma_cat_fits(d0: lzma_index_s, src: lzma_index_s)
    requires
        d0.wf(),
        src.wf(),
        d0.streams@.len() + src.streams@.len() <= u32::MAX,
        file_size_spec(d0) + file_size_spec(src) <= LZMA_VLI_MAX,
        d0.uncompressed_size + src.uncompressed_size <= LZMA_VLI_MAX,
    ensures
        shift_fits(src.streams@, cat_info(d0)),
{
    lemma_index_bounds(&d0);
    lemma_index_bounds(&src);
    let s0 = src.streams@;
    let info = cat_info(d0);
    reveal(lzma_index_s::wf);
    assert forall|k: int| 0 <= k < s0.len() implies #[trigger] stream_wf(s0[k]) by {
        assert(stream_placed(s0, k));
    }
    lemma_sum_count_le_list(s0);
    assert(sum_own(s0) == file_size_spec(src));
    assert forall|k: int| 0 <= k < s0.len() implies {
        &&& #[trigger] s0[k].node.uncompressed_base + info.uncompressed_size <= u64::MAX
        &&& s0[k].node.compressed_base + info.file_size <= u64::MAX
        &&& s0[k].number + info.stream_number_add <= u32::MAX
        &&& s0[k].block_number_base + info.block_number_add <= u64::MAX
    } by {
        assert(stream_placed(s0, k));
        lemma_src_bounds(s0, k);
    }
}

/// Appends the Streams of `src` after those of `dest`, which then describes
/// the concatenation of the two files. On `LZMA_DATA_ERROR` (see
/// `cat_result`), `dest` is unchanged.
#[verifier::rlimit(50)]
pub fn lzma_index_cat(dest: &mut lzma_index_s, src: lzma_index_s) -> (r: u32)
    requires
        old(dest).wf(),
        src.wf(),
        old(dest).streams@.len() + src.streams@.len() <= u32::MAX,
    ensures
        final(dest).wf(),
        r == cat_result(*old(dest), src),
        r != LZMA_OK ==> *final(dest) == *old(dest),
        r == LZMA_OK ==> {
            let n = old(dest).streams@.len();
            let ds = final(dest).streams@;
            &&& ds.len() == n + src.streams@.len()
            &&& ds.take(n - 1) == old(dest).streams@.drop_last()
            &&& ds[n - 1] == (index_stream { groups: ds[n - 1].groups, ..old(dest).last_stream() })
            &&& ds.skip(n as int) == shifted_streams(src.streams@, cat_info(*old(dest)))
            &&& file_size_spec(*final(dest)) == file_size_spec(*old(dest)) + file_size_spec(src)
            &&& final(dest).uncompressed_size == old(dest).uncompressed_size + src.uncompressed_size
            &&& final(dest).total_size == old(dest).total_size + src.total_size
            &&& final(dest).record_count == old(dest).record_count + src.record_count
            &&& final(dest).index_list_size == old(dest).index_list_size + src.index_list_size
            &&& final(dest).prealloc == old(dest).prealloc
            &&& final(dest).checks == (if unknown_flags(old(dest).last_stream().stream_flags) {
                old(dest).checks
            } else {
                old(dest).checks | (1u32 << old(dest).last_stream().stream_flags.check)
            }) | src.checks
        },
{
    proof {
        lemma_index_bounds(dest);
        lemma_index_bounds(&src);
    }
    let dest_file_size = lzma_index_file_size(dest);
    let src_file_size = lzma_index_file_size(&src);
    if dest_file_size + src_file_size > LZMA_VLI_MAX || dest.uncompressed_size
        > LZMA_VLI_MAX || src.uncompressed_size > LZMA_VLI_MAX - dest.uncompressed_size {
        return LZMA_DATA_ERROR;
    }
    let dest_size = index_size_unpadded_of(dest.record_count, dest.index_list_size);
    let src_size = index_size_unpadded_of(src.record_count, src.index_list_size);
    if vli_ceil4(dest_size + src_size) > LZMA_BACKWARD_SIZE_MAX {
        return LZMA_DATA_ERROR;
    }
    let ghost d0 = *dest;
    let ghost ds = dest.streams@;
    let checks = lzma_index_checks(dest);
    proof {
        lemma_cat_fits(d0, src);
    }
    let mut last = dest.streams.pop().unwrap();
    let ghost last0 = last;
    let ng = last.groups.len();
    if ng > 0 && last.groups[ng - 1].last + 1 < last.groups[ng - 1].allocated {
        let ghost gs = last.groups@;
        proof {
            lemma_groups_shrink(gs);
        }
        let mut g = last.groups.pop().unwrap();
        g.allocated = g.last + 1;
        last.groups.push(g);
        assert(last.groups@ =~= gs.update(gs.len() - 1, g));
    }
    assert(last == (index_stream { groups: last.groups, ..last0 }));
    dest.streams.push(last);
    let info = index_cat_info {
        uncompressed_size: dest.uncompressed_size,
        file_size: dest_file_size,
        block_number_add: dest.record_count,
        stream_number_add: dest.streams.len() as u32,
    };
    assert(info == cat_info(d0));
    let ghost a = dest.streams@;
    assert(a =~= ds.drop_last().push(last));
    let ghost s0 = src.streams@;
    let src_unc = src.uncompressed_size;
    let src_total = src.total_size;
    let src_count = src.record_count;
    let src_list = src.index_list_size;
    let src_checks = src.checks;
    let ghost src0 = src;
    append_shifted(&mut dest.streams, src.streams, info);
    dest.uncompressed_size = dest.uncompressed_size + src_unc;
    dest.total_size = dest.total_size + src_total;
    dest.record_count = dest.record_count + src_count;
    dest.index_list_size = dest.index_list_size + src_list;
    dest.checks = checks | src_checks;
    proof {
        lemma_cat_wf(d0, last, src0, *dest);
        let fs = dest.streams@;
        let n = ds.len();
        assert(fs.take(n - 1) =~= ds.drop_last());
        assert(fs.skip(n as int) =~= shifted_streams(s0, info));
        assert(fs.last() == shifted(s0.last(), info));
        lemma_index_bounds(&src0);
    }
    LZMA_OK
}

/// `b` is a copy of the Stream `a`, but for how its Records are allocated.
pub open spec fn stream_copy_of(a: index_stream, b: index_stream) -> bool {
    &&& same_sizes(a, b)
    &&& a.node == b.node
    &&& a.number == b.number
    &&& a.block_number_base == b.block_number_base
    &&& a.stream_flags == b.stream_flags
}

fn dup_stream(src: &index_stream) -> (r: Option<index_stream>)
    requires
        stream_wf(*src),
    ensures
        match r {
            Some(d) => src.record_count <= PREALLOC_MAX && stream_copy_of(*src, d) && stream_wf(d),
            None => src.record_count > PREALLOC_MAX,
        },
{
    if src.record_count > PREALLOC_MAX as u64 {
        return None;
    }
    let mut records: Vec<index_record> = Vec::new();
    let n = src.records.len();
    let mut k: usize = 0;
    while k < n
        invariant
            n == src.records@.len(),
            k <= n,
            records@ == src.records@.take(k as int),
        decreases n - k,
    {
        records.push(src.records[k]);
        k = k + 1;
        assert(records@ =~= src.records@.take(k as int));
    }
    assert(records@ =~= src.records@);
    let mut groups: Vec<index_group> = Vec::new();
    if n > 0 {
        groups.push(index_group { number_base: 1, allocated: n, last: n - 1 });
        proof {
            let gs = groups@;
            assert(gs.drop_last() =~= Seq::<index_group>::empty());
            assert(gs.take(0) =~= Seq::<index_group>::empty());
        }
    }
    let d = index_stream {
        node: src.node,
        number: src.number,
        block_number_base: src.block_number_base,
        groups,
        records,
        record_count: src.record_count,
        index_list_size: src.index_list_size,
        stream_flags: src.stream_flags,
        stream_padding: src.stream_padding,
    };
    Some(d)
}

proof fn lemma_dup_wf(src: lzma_index_s, d: lzma_index_s)
    requires
        src.wf(),
        d.streams@.len() == src.streams@.len(),
        forall|k: int| 0 <= k < d.streams@.len() ==> #[trigger] stream_copy_of(src.streams@[k], d.streams@[k])
            && stream_wf(d.streams@[k]),
        d.uncompressed_size == src.uncompressed_size,
        d.total_size == src.total_size,
        d.record_count == src.record_count,
        d.index_list_size == src.index_list_size,
        d.prealloc == INDEX_GROUP_SIZE,
    ensures
        d.wf(),
{
    reveal(lzma_index_s::wf);
    let ss = src.streams@;
    let ds = d.streams@;
    assert forall|k: int| 0 <= k < ds.len() implies #[trigger] same_sizes(ss[k], ds[k]) by {
        assert(stream_copy_of(ss[k], ds[k]));
    }
    lemma_sums_same(ss, ds);
    assert forall|k: int| 0 <= k < ds.len() implies #[trigger] stream_placed(ds, k) by {
        assert(stream_placed(ss, k));
        assert(stream_copy_of(ss[k], ds[k]));
        assert forall|q: int| 0 <= q < k implies #[trigger] same_sizes(ss.take(k)[q], ds.take(k)[q]) by {
            assert(stream_copy_of(ss[q], ds[q]));
        }
        lemma_sums_same(ss.take(k), ds.take(k));
    }
    assert forall|q: int| 0 <= q < ds.len() - 1 implies #[trigger] same_sizes(
        ss.drop_last()[q],
        ds.drop_last()[q],
    ) by {
        assert(stream_copy_of(ss[q], ds[q]));
    }
    lemma_sums_same(ss.drop_last(), ds.drop_last());
}

/// Copies the Index `src`: the same Streams and Blocks, each Stream's
/// Records in one group, no recorded checks and the default group size.
/// `None` when a Stream has more Records than one group can hold.
pub fn lzma_index_dup(src: &lzma_index_s) -> (r: Option<lzma_index_s>)
    requires
        src.wf(),
    ensures
        match r {
            Some(d) => {
                &&& d.wf()
                &&& d.streams@.len() == src.streams@.len()
                &&& forall|k: int| 0 <= k < d.streams@.len() ==> #[trigger] stream_copy_of(
                    src.streams@[k],
                    d.streams@[k],
                )
                &&& d.uncompressed_size == src.uncompressed_size
                &&& d.total_size == src.total_size
                &&& d.record_count == src.record_count
                &&& d.index_list_size == src.index_list_size
                &&& d.prealloc == INDEX_GROUP_SIZE
                &&& d.checks == 0
            },
            None => exists|k: int| 0 <= k < src.streams@.len() && #[trigger] src.streams@[k].record_count
                > PREALLOC_MAX,
        },
{
    let ghost ss = src.streams@;
    proof {
        reveal(lzma_index_s::wf);
    }
    let mut streams: Vec<index_stream> = Vec::new();
    let n = src.streams.len();
    let mut k: usize = 0;
    while k < n
        invariant
            n == ss.len(),
            ss == src.streams@,
            k <= n,
            streams@.len() == k,
            forall|q: int| 0 <= q < ss.len() ==> #[trigger] stream_placed(ss, q),
            forall|q: int| 0 <= q < k ==> #[trigger] stream_copy_of(ss[q], streams@[q]) && stream_wf(streams@[q]),
        decreases n - k,
    {
        assert(stream_placed(ss, k as int));
        match dup_stream(&src.streams[k]) {
            Some(d) => {
                streams.push(d);
            },
            None => {
                return None;
            },
        }
        k = k + 1;
    }
    let d = lzma_index_s {
        streams,
        uncompressed_size: src.uncompressed_size,
        total_size: src.total_size,
        record_count: src.record_count,
        index_list_size: src.index_list_size,
        prealloc: INDEX_GROUP_SIZE,
        checks: 0,
    };
    proof {
        lemma_dup_wf(*src, d);
    }
    Some(d)
}

/// Iteration mode: Streams and Blocks, empty Streams included.
pub const LZMA_INDEX_ITER_ANY: u32 = 0;
/// Iteration mode: Streams only.
pub const LZMA_INDEX_ITER_STREAM: u32 = 1;
/// Iteration mode: Blocks only.
pub const LZMA_INDEX_ITER_BLOCK: u32 = 2;
/// Iteration mode: Blocks with uncompressed data only.
pub const LZMA_INDEX_ITER_NONEMPTY_BLOCK: u32 = 3;

/// What an iterator tells of the Stream it is at.
#[allow(non_camel_case_types)]
#[derive(Clone, Copy, Debug, PartialEq, Eq)]
pub struct lzma_index_iter_stream {
    /// Stream Flags, when known.
    pub flags: Option<StreamFlags>,
    /// Number of the Stream (from 1).
    pub number: u64,
    /// Number of Blocks in the Stream.
    pub block_count: u64,
    /// Compressed offset of the Stream in the file.
    pub compressed_offset: u64,
    /// Uncompressed offset of the Stream.
    pub uncompressed_offset: u64,
    /// Size of the Stream in the file, padding excluded.
    pub compressed_size: u64,
    /// Uncompressed size of the Stream.
    pub uncompressed_size: u64,
    /// Stream Padding after the Stream.
    pub padding: u64,
}

/// What an iterator tells of the Block it is at.
#[allow(non_camel_case_types)]
#[derive(Clone, Copy, Debug, PartialEq, Eq, Structural)]
pub struct lzma_index_iter_block {
    /// Number of the Block in the file (from 1).
    pub number_in_file: u64,
    /// Compressed offset of the Block in the file.
    pub compressed_file_offset: u64,
    /// Uncompressed offset of the Block in the file.
    pub uncompressed_file_offset: u64,
    /// Number of the Block in its Stream (from 1).
    pub number_in_stream: u64,
    /// Compressed offset of the Block in its Stream.
    pub compressed_stream_offset: u64,
    /// Uncompressed offset of the Block in its Stream.
    pub uncompressed_stream_offset: u64,
    /// Uncompressed size of the Block.
    pub uncompressed_size: u64,
    /// Unpadded Size of the Block.
    pub unpadded_size: u64,
    /// Total Size of the Block.
    pub total_size: u64,
}

/// Where an iterator is: a Stream and a Record of it (record 0 and no Block
/// for a Stream that had none).
#[derive(Clone, Copy, Debug, PartialEq, Eq, Structural)]
pub struct IterPos {
    /// Position of the Stream.
    pub stream: usize,
    /// Position of the Record in the Stream.
    pub record: usize,
}

/// An iterator over the Streams and Blocks of an Index.
#[allow(non_camel_case_types)]
#[derive(Clone, Copy, Debug)]
pub struct lzma_index_iter {
    /// The Stream the iterator is at.
    pub stream: lzma_index_iter_stream,
    /// The Block the iterator is at, or was at last.
    pub block: lzma_index_iter_block,
    /// Where the iterator is; `None` before the first step.
    pub pos: Option<IterPos>,
}

/// Record `r` of Stream `s` exists.
pub open spec fn is_block(ss: Seq<index_stream>, s: int, r: int) -> bool {
    0 <= s < ss.len() && 0 <= r < ss[s].records@.len()
}

/// Position `(s, r)` stands for the empty Stream `s`.
pub open spec fn is_empty_stream(ss: Seq<index_stream>, s: int, r: int) -> bool {
    0 <= s < ss.len() && ss[s].records@.len() == 0 && r == 0
}

/// Position `(s, r)` is one that mode `mode` stops at.
pub open spec fn qualifies(ss: Seq<index_stream>, mode: u32, s: int, r: int) -> bool {
    if mode == LZMA_INDEX_ITER_ANY {
        is_block(ss, s, r) || is_empty_stream(ss, s, r)
    } else if mode == LZMA_INDEX_ITER_STREAM {
        0 <= s < ss.len() && r == 0
    } else if mode == LZMA_INDEX_ITER_BLOCK {
        is_block(ss, s, r)
    } else {
        is_block(ss, s, r) && block_uncompressed(ss[s].records@, r) != 0
    }
}

/// Position `(s, r)` comes after `pos` for mode `mode`: a later Record of
/// the same Stream (not for the Stream mode) or a later Stream.
pub open spec fn comes_after(mode: u32, pos: Option<IterPos>, s: int, r: int) -> bool {
    match pos {
        None => true,
        Some(p) => s > p.stream || (mode != LZMA_INDEX_ITER_STREAM && s == p.stream && r > p.record),
    }
}

/// `(s, r)` is before `(s2, r2)`.
pub open spec fn lex_le(s: int, r: int, s2: int, r2: int) -> bool {
    s < s2 || (s == s2 && r <= r2)
}

/// `(s, r)` is the first position after `pos` that mode `mode` stops at.
pub open spec fn is_next(ss: Seq<index_stream>, mode: u32, pos: Option<IterPos>, s: int, r: int) -> bool {
    &&& qualifies(ss, mode, s, r)
    &&& comes_after(mode, pos, s, r)
    &&& forall|s2: int, r2: int|
        #[trigger] qualifies(ss, mode, s2, r2) && comes_after(mode, pos, s2, r2) ==> lex_le(
            s,
            r,
            s2,
            r2,
        )
}

/// No position after `pos` is one that mode `mode` stops at.
pub open spec fn at_end(ss: Seq<index_stream>, mode: u32, pos: Option<IterPos>) -> bool {
    forall|s2: int, r2: int| #[trigger] qualifies(ss, mode, s2, r2) ==> !comes_after(mode, pos, s2, r2)
}

/// What the iterator tells of Stream `s`.
pub open spec fn stream_info(s: index_stream) -> lzma_index_iter_stream {
    lzma_index_iter_stream {
        flags: if unknown_flags(s.stream_flags) {
            None
        } else {
            Some(s.stream_flags)
        },
        number: s.number as u64,
        block_count: s.record_count,
        compressed_offset: s.node.compressed_base,
        uncompressed_offset: s.node.uncompressed_base,
        compressed_size: (2 * LZMA_STREAM_HEADER_SIZE + index_size(s.record_count, s.index_list_size)
            + ceil4(stream_unpadded_sum(s))) as u64,
        uncompressed_size: stream_uncompressed(s) as u64,
        padding: s.stream_padding,
    }
}

/// What the iterator tells of Record `r` of Stream `s`.
pub open spec fn block_info(s: index_stream, r: int) -> lzma_index_iter_block {
    let recs = s.records@;
    let cso = prev_comp(recs, r) + LZMA_STREAM_HEADER_SIZE;
    lzma_index_iter_block {
        number_in_file: (r + 1 + s.block_number_base) as u64,
        compressed_file_offset: (cso + s.node.compressed_base) as u64,
        uncompressed_file_offset: (prev_unc(recs, r) + s.node.uncompressed_base) as u64,
        number_in_stream: (r + 1) as u64,
        compressed_stream_offset: cso as u64,
        uncompressed_stream_offset: prev_unc(recs, r) as u64,
        uncompressed_size: block_uncompressed(recs, r) as u64,
        unpadded_size: block_unpadded(recs, r) as u64,
        total_size: ceil4(block_unpadded(recs, r)) as u64,
    }
}

/// The iterator at `p` tells what it should of the Index's Streams `ss`; the
/// Block it tells of is kept when `p` has none.
pub open spec fn iter_at(it: lzma_index_iter, ss: Seq<index_stream>, p: IterPos, old_block: lzma_index_iter_block) -> bool {
    &&& it.pos == Some(p)
    &&& it.stream == stream_info(ss[p.stream as int])
    &&& it.block == (if is_block(ss, p.stream as int, p.record as int) {
        block_info(ss[p.stream as int], p.record as int)
    } else {
        old_block
    })
}

/// The iterator's position is one of the Index with Streams `ss`.
pub open spec fn pos_valid(ss: Seq<index_stream>, pos: Option<IterPos>) -> bool {
    match pos {
        None => true,
        Some(p) => p.stream < ss.len() && p.record <= ss[p.stream as int].records@.len(),
    }
}

/// An iterator before its first step: no position and every field zero
/// (the Stream Flags absent).
pub open spec fn iter_blank() -> lzma_index_iter {
    lzma_index_iter {
        stream: lzma_index_iter_stream {
            flags: None,
            number: 0,
            block_count: 0,
            compressed_offset: 0,
            uncompressed_offset: 0,
            compressed_size: 0,
            uncompressed_size: 0,
            padding: 0,
        },
        block: lzma_index_iter_block {
            number_in_file: 0,
            compressed_file_offset: 0,
            uncompressed_file_offset: 0,
            number_in_stream: 0,
            compressed_stream_offset: 0,
            uncompressed_stream_offset: 0,
            uncompressed_size: 0,
            unpadded_size: 0,
            total_size: 0,
        },
        pos: None,
    }
}

/// An iterator before its first step, with zero information.
pub fn lzma_index_iter_init() -> (it: lzma_index_iter)
    ensures
        it == iter_blank(),
        it.pos is None,
{
    lzma_index_iter {
        stream: lzma_index_iter_stream {
            flags: None,
            number: 0,
            block_count: 0,
            compressed_offset: 0,
            uncompressed_offset: 0,
            compressed_size: 0,
            uncompressed_size: 0,
            padding: 0,
        },
        block: lzma_index_iter_block {
            number_in_file: 0,
            compressed_file_offset: 0,
            uncompressed_file_offset: 0,
            number_in_stream: 0,
            compressed_stream_offset: 0,
            uncompressed_stream_offset: 0,
            uncompressed_size: 0,
            unpadded_size: 0,
            total_size: 0,
        },
        pos: None,
    }
}

/// Puts the iterator back before its first step.
pub fn lzma_index_iter_rewind(iter: &mut lzma_index_iter)
    ensures
        final(iter).pos is None,
        final(iter).stream == old(iter).stream,
        final(iter).block == old(iter).block,
{
    iter.pos = None;
}

proof fn lemma_block_fields(i: &lzma_index_s, s: int, r: int)
    requires
        i.wf(),
        is_block(i.streams@, s, r),
    ensures
        ({
            let st = i.streams@[s];
            let recs = st.records@;
            &&& stream_wf(st)
            &&& prev_comp(recs, r) + LZMA_STREAM_HEADER_SIZE + st.node.compressed_base <= LZMA_VLI_MAX
            &&& prev_unc(recs, r) + st.node.uncompressed_base <= u64::MAX
            &&& 0 <= prev_unc(recs, r) <= recs[r].uncompressed_sum
            &&& 0 <= prev_comp(recs, r) <= recs[r].unpadded_sum
            &&& r + 1 + st.block_number_base <= u64::MAX
            &&& UNPADDED_SIZE_MIN <= block_unpadded(recs, r) <= UNPADDED_SIZE_MAX
            &&& block_uncompressed(recs, r) >= 0
        }),
{
    reveal(lzma_index_s::wf);
    let ss = i.streams@;
    let n = ss.len() - 1;
    assert(stream_placed(ss, s));
    let st = ss[s];
    let recs = st.records@;
    lemma_index_bounds(i);
    assert(UNPADDED_SIZE_MIN <= block_unpadded(recs, r) <= UNPADDED_SIZE_MAX);
    if r > 0 {
        assert(UNPADDED_SIZE_MIN <= block_unpadded(recs, r - 1) <= UNPADDED_SIZE_MAX);
        lemma_records_sum_le_last(recs, r - 1);
    }
    assert(prev_comp(recs, r) <= ceil4(stream_unpadded_sum(st)));
    assert(st.node.compressed_base + stream_own_size(st) <= LZMA_VLI_MAX);
    assert(index_size(st.record_count, st.index_list_size) >= 0);
    assert(prev_comp(recs, r) + LZMA_STREAM_HEADER_SIZE + st.node.compressed_base <= LZMA_VLI_MAX);
    assert(recs[r].uncompressed_sum <= LZMA_VLI_MAX);
    if s < n {
        lemma_prefix_own(ss.drop_last(), s);
        assert(ss.drop_last().take(s) =~= ss.take(s));
        assert(ss.drop_last()[s] == ss[s]);
        assert(stream_uncompressed(st) >= 0);
    } else {
        assert(ss.take(s) =~= ss.drop_last());
    }
    assert(st.node.uncompressed_base <= LZMA_VLI_MAX);
    lemma_src_bounds(ss, s);
    assert forall|k: int| 0 <= k < ss.len() implies #[trigger] stream_wf(ss[k]) by {
        assert(stream_placed(ss, k));
    }
    lemma_sum_count_le_list(ss);
}

proof fn lemma_records_sum_le_last(recs: Seq<index_record>, r: int)
    requires
        records_valid(recs),
        0 <= r < recs.len(),
    ensures
        ceil4(recs[r].unpadded_sum as int) <= ceil4(recs.last().unpadded_sum as int),
        recs[r].uncompressed_sum <= recs.last().uncompressed_sum,
    decreases recs.len() - r,
{
    if r < recs.len() - 1 {
        assert(UNPADDED_SIZE_MIN <= block_unpadded(recs, r + 1));
        assert(block_uncompressed(recs, r + 1) >= 0);
        lemma_records_sum_le_last(recs, r + 1);
    }
}

fn set_info(iter: &mut lzma_index_iter, i: &lzma_index_s, p: IterPos)
    requires
        i.wf(),
        p.stream < i.streams@.len(),
    ensures
        iter_at(*final(iter), i.streams@, p, old(iter).block),
{
    proof {
        reveal(lzma_index_s::wf);
        lemma_index_bounds(i);
        assert(stream_placed(i.streams@, p.stream as int));
        lemma_src_bounds(i.streams@, p.stream as int);
    }
    let s = &i.streams[p.stream];
    let nrec = s.records.len();
    let (unp_sum, unc_sum) = if nrec == 0 {
        (0u64, 0u64)
    } else {
        (s.records[nrec - 1].unpadded_sum, s.records[nrec - 1].uncompressed_sum)
    };
    let isz = index_size_of(s.record_count, s.index_list_size);
    iter.stream = lzma_index_iter_stream {
        flags: if s.stream_flags.version == u32::MAX {
            None
        } else {
            Some(s.stream_flags)
        },
        number: s.number as u64,
        block_count: s.record_count,
        compressed_offset: s.node.compressed_base,
        uncompressed_offset: s.node.uncompressed_base,
        compressed_size: (2 * LZMA_STREAM_HEADER_SIZE) as u64 + isz + vli_ceil4(unp_sum),
        uncompressed_size: unc_sum,
        padding: s.stream_padding,
    };
    if p.record < nrec {
        let r = p.record;
        proof {
            lemma_block_fields(i, p.stream as int, r as int);
        }
        let (prev_c, prev_u) = if r == 0 {
            (0u64, 0u64)
        } else {
            (vli_ceil4(s.records[r - 1].unpadded_sum), s.records[r - 1].uncompressed_sum)
        };
        let cso = prev_c + LZMA_STREAM_HEADER_SIZE as u64;
        let unpadded = s.records[r].unpadded_sum - prev_c;
        iter.block = lzma_index_iter_block {
            number_in_file: r as u64 + 1 + s.block_number_base,
            compressed_file_offset: cso + s.node.compressed_base,
            uncompressed_file_offset: prev_u + s.node.uncompressed_base,
            number_in_stream: r as u64 + 1,
            compressed_stream_offset: cso,
            uncompressed_stream_offset: prev_u,
            uncompressed_size: s.records[r].uncompressed_sum - prev_u,
            unpadded_size: unpadded,
            total_size: vli_ceil4(unpadded),
        };
    }
    iter.pos = Some(p);
}

/// Moves the iterator to the next position that mode `mode` stops at
/// (`LZMA_INDEX_ITER_*`): returns false there, true when there is none or
/// `mode` is unknown, the iterator then unchanged.
pub fn lzma_index_iter_next(iter: &mut lzma_index_iter, i: &lzma_index_s, mode: u32) -> (end: bool)
    requires
        i.wf(),
        pos_valid(i.streams@, old(iter).pos),
    ensures
        mode > LZMA_INDEX_ITER_NONEMPTY_BLOCK ==> end && *final(iter) == *old(iter),
        mode <= LZMA_INDEX_ITER_NONEMPTY_BLOCK ==> {
            if end {
                at_end(i.streams@, mode, old(iter).pos) && *final(iter) == *old(iter)
            } else {
                exists|p: IterPos|
                    is_next(i.streams@, mode, old(iter).pos, p.stream as int, p.record as int)
                        && #[trigger] iter_at(*final(iter), i.streams@, p, old(iter).block)
            }
        },
{
    if mode > LZMA_INDEX_ITER_NONEMPTY_BLOCK {
        return true;
    }
    let ghost ss = i.streams@;
    let ghost pos0 = iter.pos;
    let ghost b0 = iter.block;
    let ghost it0 = *iter;
    let len = i.streams.len();
    if mode == LZMA_INDEX_ITER_STREAM {
        let s = match iter.pos {
            None => 0,
            Some(p) => p.stream + 1,
        };
        if s >= len {
            assert forall|s2: int, r2: int| #[trigger] qualifies(ss, mode, s2, r2) implies !comes_after(
                mode,
                pos0,
                s2,
                r2,
            ) by {}
            return true;
        }
        let p = IterPos { stream: s, record: 0 };
        set_info(iter, i, p);
        assert(is_next(ss, mode, pos0, s as int, 0) && iter_at(*iter, ss, p, b0));
        return false;
    }
    let start = iter.pos;
    let (mut s, mut r) = match start {
        None => (0usize, 0usize),
        Some(p) => {
            if p.record < i.streams[p.stream].records.len() {
                (p.stream, p.record + 1)
            } else {
                (p.stream + 1, 0)
            }
        },
    };
    while s < len
        invariant
            len == ss.len(),
            ss == i.streams@,
            i.wf(),
            mode != LZMA_INDEX_ITER_STREAM,
            mode <= LZMA_INDEX_ITER_NONEMPTY_BLOCK,
            *iter == it0,
            it0.pos == pos0,
            it0.block == b0,
            match pos0 {
                None => true,
                Some(p) => lex_le(p.stream as int, p.record + 1, s as int, r as int),
            },
            s < len ==> r <= ss[s as int].records@.len(),
            it0 == *old(iter),
            forall|s2: int, r2: int|
                #[trigger] qualifies(ss, mode, s2, r2) && comes_after(mode, pos0, s2, r2) ==> lex_le(
                    s as int,
                    r as int,
                    s2,
                    r2,
                ),
        decreases len - s, usize::MAX - r,
    {
        let n = i.streams[s].records.len();
        if r < n {
            let hit = if mode == LZMA_INDEX_ITER_NONEMPTY_BLOCK {
                let prev_u = if r == 0 {
                    0
                } else {
                    i.streams[s].records[r - 1].uncompressed_sum
                };
                i.streams[s].records[r].uncompressed_sum != prev_u
            } else {
                true
            };
            if hit {
                let p = IterPos { stream: s, record: r };
                set_info(iter, i, p);
                assert(is_next(ss, mode, pos0, s as int, r as int) && iter_at(*iter, ss, p, b0));
                return false;
            }
            r = r + 1;
        } else if n == 0 && r == 0 && mode == LZMA_INDEX_ITER_ANY {
            let p = IterPos { stream: s, record: 0 };
            set_info(iter, i, p);
            assert(is_next(ss, mode, pos0, s as int, 0) && iter_at(*iter, ss, p, b0));
            return false;
        } else {
            s = s + 1;
            r = 0;
        }
    }
    assert forall|s2: int, r2: int| #[trigger] qualifies(ss, mode, s2, r2) implies !comes_after(
        mode,
        pos0,
        s2,
        r2,
    ) by {}
    true
}

/// Record `r` of Stream `s` is the Block that holds the uncompressed byte
/// at offset `target` of the file.
pub open spec fn holds_target(ss: Seq<index_stream>, target: u64, s: int, r: int) -> bool {
    let base = ss[s].node.uncompressed_base;
    &&& is_block(ss, s, r)
    &&& base <= target
    &&& target - base < ss[s].records@[r].uncompressed_sum
    &&& prev_unc(ss[s].records@, r) <= target - base
}

proof fn lemma_records_mono(recs: Seq<index_record>, j: int, k: int)
    requires
        records_valid(recs),
        0 <= j <= k < recs.len(),
    ensures
        recs[j].uncompressed_sum <= recs[k].uncompressed_sum,
    decreases k - j,
{
    if j < k {
        assert(UNPADDED_SIZE_MIN <= block_unpadded(recs, k));
        assert(block_uncompressed(recs, k) >= 0);
        lemma_records_mono(recs, j, k - 1);
    }
}

proof fn lemma_next_base(i: &lzma_index_s, k: int)
    requires
        i.wf(),
        0 <= k < i.streams@.len(),
    ensures
        stream_wf(i.streams@[k]),
        k + 1 < i.streams@.len() ==> i.streams@[k + 1].node.uncompressed_base == i.streams@[k].node.uncompressed_base
            + stream_uncompressed(i.streams@[k]),
        k + 1 == i.streams@.len() ==> i.uncompressed_size == i.streams@[k].node.uncompressed_base
            + stream_uncompressed(i.streams@[k]),
{
    reveal(lzma_index_s::wf);
    let ss = i.streams@;
    assert(stream_placed(ss, k));
    if k + 1 < ss.len() {
        assert(stream_placed(ss, k + 1));
        assert(ss.take(k + 1).drop_last() =~= ss.take(k));
    } else {
        assert(ss.take(k) =~= ss.drop_last());
    }
}

/// Moves the iterator to the Block that holds the uncompressed byte at
/// offset `target`: returns false there, true, the iterator unchanged, when
/// the file is not that long.
pub fn lzma_index_iter_locate(iter: &mut lzma_index_iter, i: &lzma_index_s, target: u64) -> (not_found: bool)
    requires
        i.wf(),
    ensures
        not_found == (i.uncompressed_size <= target),
        not_found ==> *final(iter) == *old(iter),
        !not_found ==> exists|p: IterPos|
            holds_target(i.streams@, target, p.stream as int, p.record as int)
                && #[trigger] iter_at(*final(iter), i.streams@, p, old(iter).block),
{
    if i.uncompressed_size <= target {
        return true;
    }
    let ghost ss = i.streams@;
    let ghost b0 = iter.block;
    let len = i.streams.len();
    proof {
        reveal(lzma_index_s::wf);
        assert(stream_placed(ss, 0));
        assert(ss.take(0) =~= Seq::<index_stream>::empty());
    }
    let mut s: usize = 0;
    while s + 1 < len && i.streams[s + 1].node.uncompressed_base <= target
        invariant
            len == ss.len(),
            ss == i.streams@,
            1 <= len,
            s < len,
            ss[s as int].node.uncompressed_base <= target,
        decreases len - s,
    {
        s = s + 1;
    }
    proof {
        lemma_next_base(i, s as int);
    }
    let st = &i.streams[s];
    let base = st.node.uncompressed_base;
    let t = target - base;
    let n = st.records.len();
    let ghost recs = st.records@;
    assert(n > 0);
    assert(recs[n - 1].uncompressed_sum > t);
    let mut left: usize = 0;
    let mut right: usize = n - 1;
    while left < right
        invariant
            recs == st.records@,
            n == recs.len(),
            records_valid(recs),
            left <= right < n,
            recs[right as int].uncompressed_sum > t,
            forall|k: int| 0 <= k < left ==> #[trigger] recs[k].uncompressed_sum <= t,
        decreases right - left,
    {
        let mid = left + (right - left) / 2;
        if st.records[mid].uncompressed_sum <= t {
            proof {
                assert forall|k: int| 0 <= k < mid + 1 implies #[trigger] recs[k].uncompressed_sum <= t by {
                    lemma_records_mono(recs, k, mid as int);
                }
            }
            left = mid + 1;
        } else {
            right = mid;
        }
    }
    let p = IterPos { stream: s, record: left };
    set_info(iter, i, p);
    proof {
        if left > 0 {
            assert(recs[left - 1].uncompressed_sum <= t);
        }
        assert(holds_target(ss, target, s as int, left as int));
        assert(iter_at(*iter, ss, p, b0));
    }
    false
}

} // verus!
