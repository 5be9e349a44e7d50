//! Reading the Index of every Stream of a .xz file, from its end backwards,
//! asking the caller to seek where the next piece lies.
use vstd::prelude::*;
use crate::common::lzma_bufcpy;
use crate::index::{
    file_size_spec, flags_result, index_stream, lzma_index_cat, lzma_index_memusage,
    lzma_index_memused, lzma_index_s, lzma_index_stream_flags, lzma_index_stream_padding,
    lzma_index_total_size, memusage_spec, unknown_flags,
};
use crate::index_coder::{
    consumed_len, id_run, index_decode, index_decoder_memconfig, lzma_index_coder,
    lzma_index_decoder, size_ok,
};
use crate::index_decoder::{index_holds, list_of_pairs};
use crate::index_size::index_size;
use crate::stream_flags::{
    header_decode_result, lzma_stream_flags_compare, lzma_stream_footer_decode, lzma_stream_header_decode, StreamFlags,
};
use crate::types::{
    LZMA_DATA_ERROR, LZMA_FORMAT_ERROR, LZMA_MEMLIMIT_ERROR, LZMA_OK, LZMA_PROG_ERROR,
    LZMA_SEEK_NEEDED, LZMA_STREAM_END, LZMA_STREAM_HEADER_SIZE, LZMA_VLI_MAX, LZMA_VLI_UNKNOWN,
};

verus! {

/// Size of the window the decoder reads the end of a Stream into.
pub const FILE_INFO_TEMP_SIZE: usize = 8192;

/// Reading the Stream Header at the start of the file.
pub const SEQ_MAGIC_BYTES: u32 = 0;
/// Seeking back to read the Stream Padding.
pub const SEQ_PADDING_SEEK: u32 = 1;
/// Reading the Stream Padding.
pub const SEQ_PADDING_DECODE: u32 = 2;
/// Reading the Stream Footer.
pub const SEQ_FOOTER: u32 = 3;
/// Starting to decode an Index.
pub const SEQ_INDEX_INIT: u32 = 4;
/// Decoding an Index.
pub const SEQ_INDEX_DECODE: u32 = 5;
/// Reading a Stream Header.
pub const SEQ_HEADER_DECODE: u32 = 6;
/// Comparing the Stream Header with the Stream Footer.
pub const SEQ_HEADER_COMPARE: u32 = 7;

/// Twelve bytes for the Stream Header and Stream Footer.
pub const HEADER_SIZE_U64: u64 = 12;

/// The state of a decoder of the Indexes of a .xz file.
#[allow(non_camel_case_types)]
pub struct lzma_file_info_coder {
    sequence: u32,
    file_cur_pos: u64,
    file_target_pos: u64,
    file_size: u64,
    index_decoder: lzma_index_coder,
    index_remaining: u64,
    this_index: Option<lzma_index_s>,
    stream_padding: u64,
    combined_index: Option<lzma_index_s>,
    dest_index: Option<lzma_index_s>,
    seek_pos: u64,
    memlimit: u64,
    first_header_flags: StreamFlags,
    header_flags: StreamFlags,
    footer_flags: StreamFlags,
    temp_pos: usize,
    temp_size: usize,
    temp: Vec<u8>,
    stream_end: Ghost<int>,
}

/// The Index `i`, when there is one, is well formed.
pub open spec fn opt_index_wf(i: Option<lzma_index_s>) -> bool {
    match i {
        Some(x) => x.wf(),
        None => true,
    }
}

/// The bit that a Stream adds to the checks of an Index: that of its check
/// when its Stream Flags are known, none otherwise.
pub open spec fn check_bit(s: index_stream) -> u32 {
    if unknown_flags(s.stream_flags) {
        0
    } else {
        1u32 << s.stream_flags.check
    }
}

/// The checks of the Streams `ss`, one bit each.
pub open spec fn checks_of(ss: Seq<index_stream>) -> u32
    decreases ss.len(),
{
    if ss.len() == 0 {
        0
    } else {
        check_bit(ss[0]) | checks_of(ss.skip(1))
    }
}

/// Every Stream of `i` carries valid Stream Flags, and the checks `i`
/// records are those of all its Streams but the last.
pub open spec fn streams_flagged(i: lzma_index_s) -> bool {
    &&& i.streams@.len() >= 1
    &&& forall|k: int| 0 <= k < i.streams@.len() ==> flags_result(#[trigger] i.streams@[k].stream_flags) == LZMA_OK
    &&& i.checks == checks_of(i.streams@.drop_last())
}

proof fn lemma_or_facts(a: u32, b: u32, c: u32)
    by (bit_vector)
    ensures
        (a | (b | c)) == ((a | b) | c),
        (0u32 | a) == a,
        (a | 0u32) == a,
{
}

/// Streams with the same Stream Flags have the same checks.
proof fn lemma_checks_same(a: Seq<index_stream>, b: Seq<index_stream>)
    requires
        a.len() == b.len(),
        forall|j: int| 0 <= j < a.len() ==> #[trigger] a[j].stream_flags == b[j].stream_flags,
    ensures
        checks_of(a) == checks_of(b),
    decreases a.len(),
{
    if a.len() > 0 {
        assert(a[0].stream_flags == b[0].stream_flags);
        lemma_checks_same(a.skip(1), b.skip(1));
    }
}

/// The checks of Streams are those of all but the last, and the last.
proof fn lemma_checks_last(ss: Seq<index_stream>)
    requires
        ss.len() >= 1,
    ensures
        checks_of(ss) == (checks_of(ss.drop_last()) | check_bit(ss.last())),
    decreases ss.len(),
{
    if ss.len() == 1 {
        assert(ss.skip(1) =~= Seq::<index_stream>::empty());
        assert(ss.drop_last() =~= Seq::<index_stream>::empty());
        lemma_or_facts(check_bit(ss[0]), 0, 0);
    } else {
        let t = ss.skip(1);
        lemma_checks_last(t);
        assert(t.drop_last() =~= ss.drop_last().skip(1));
        assert(t.last() == ss.last());
        assert(ss.drop_last()[0] == ss[0]);
        lemma_or_facts(check_bit(ss[0]), checks_of(t.drop_last()), check_bit(ss.last()));
    }
}

/// Once the decoder has read every Stream, the Index it gives holds each
/// Stream with valid Stream Flags, and the checks that Index reports
/// (`lzma_index_checks`) are the checks of all its Streams: one bit for the
/// check of each Stream.
pub proof fn law_flagged_index_checks(i: lzma_index_s)
    requires
        streams_flagged(i),
    ensures
        forall|k: int| 0 <= k < i.streams@.len() ==> !unknown_flags(#[trigger] i.streams@[k].stream_flags),
        (if unknown_flags(i.last_stream().stream_flags) {
            i.checks
        } else {
            i.checks | (1u32 << i.last_stream().stream_flags.check)
        }) == checks_of(i.streams@),
{
    assert forall|k: int| 0 <= k < i.streams@.len() implies !unknown_flags(#[trigger] i.streams@[k].stream_flags) by {
        assert(flags_result(i.streams@[k].stream_flags) == LZMA_OK);
    }
    assert(!unknown_flags(i.streams@[i.streams@.len() - 1].stream_flags));
    lemma_checks_last(i.streams@);
}

impl lzma_file_info_coder {
    /// The state is consistent.
    pub closed spec fn wf(&self) -> bool {
        &&& self.sequence <= SEQ_HEADER_COMPARE
        &&& self.file_cur_pos <= self.file_size
        &&& self.file_target_pos <= self.file_size
        &&& self.file_size <= LZMA_VLI_MAX || self.sequence == SEQ_MAGIC_BYTES
        &&& self.temp@.len() == FILE_INFO_TEMP_SIZE
        &&& self.temp_pos <= self.temp_size <= FILE_INFO_TEMP_SIZE
        &&& self.memlimit >= 1
        &&& self.index_decoder.wf()
        &&& opt_index_wf(self.this_index)
        &&& opt_index_wf(self.combined_index)
        &&& opt_index_wf(self.dest_index)
        &&& (self.this_index matches Some(t) ==> t.checks == 0)
        &&& (self.combined_index matches Some(ci) ==> streams_flagged(ci))
        &&& (self.dest_index matches Some(d) ==> streams_flagged(d))
        &&& self.sequence == SEQ_MAGIC_BYTES ==> self.temp_size == LZMA_STREAM_HEADER_SIZE
            && self.combined_index is None && self.file_cur_pos == self.temp_pos
        &&& (self.sequence == SEQ_PADDING_DECODE || self.sequence == SEQ_FOOTER
            || self.sequence == SEQ_HEADER_DECODE) ==> self.file_target_pos >= self.temp_size
            + HEADER_SIZE_U64
        &&& self.sequence == SEQ_PADDING_DECODE ==> self.temp_size >= 1
        &&& (self.sequence == SEQ_FOOTER || self.sequence == SEQ_HEADER_DECODE) ==> self.temp_size
            >= LZMA_STREAM_HEADER_SIZE
        &&& self.sequence == SEQ_INDEX_DECODE ==> self.temp_size == 0 || self.temp_size
            - self.temp_pos == self.index_remaining
        &&& (self.sequence == SEQ_INDEX_INIT || self.sequence == SEQ_INDEX_DECODE) ==> self.this_index
            is None
        &&& self.sequence == SEQ_HEADER_DECODE ==> self.this_index is Some
        &&& self.sequence == SEQ_HEADER_COMPARE ==> self.this_index is Some || self.dest_index is Some
        &&& (self.this_index matches Some(x) ==> x.streams@.len() == 1)
        &&& self.sequence <= SEQ_INDEX_DECODE ==> self.this_index is None
        &&& (self.sequence == SEQ_PADDING_SEEK || self.sequence == SEQ_PADDING_DECODE)
            ==> self.stream_padding + self.file_target_pos <= self.file_size
        &&& self.sequence == SEQ_INDEX_INIT ==> self.temp_size == 0 || (self.temp_size
            - self.temp_pos == self.footer_flags.backward_size && self.file_target_pos
            >= self.temp_pos + HEADER_SIZE_U64)
        &&& self.sequence == SEQ_INDEX_DECODE ==> self.temp_size == 0 || (self.temp_pos
            <= self.temp_size && self.temp_size - self.footer_flags.backward_size
            + HEADER_SIZE_U64 <= self.file_target_pos && self.footer_flags.backward_size
            <= self.temp_size)
        &&& self.sequence == SEQ_HEADER_COMPARE ==> self.file_target_pos == 0
            || self.file_target_pos >= self.temp_size + HEADER_SIZE_U64
        &&& self.sizes_wf()
    }

    /// Where the Streams read so far start, and how the sizes of what was
    /// read add up: the combined Index covers the file from the end of the
    /// Stream being read; within that Stream, the position, the padding, the
    /// Index field and the Blocks add up to its end.
    pub closed spec fn sizes_wf(&self) -> bool {
        let se = self.stream_end@;
        let bs = self.footer_flags.backward_size;
        let pad = self.stream_padding;
        let target = self.file_target_pos;
        &&& 0 <= se <= self.file_size
        &&& match self.combined_index {
            Some(ci) => file_size_spec(ci) == self.file_size - se,
            None => se == self.file_size,
        }
        &&& (self.dest_index matches Some(d) ==> file_size_spec(d) == self.file_size)
        &&& (self.sequence == SEQ_PADDING_SEEK || self.sequence == SEQ_PADDING_DECODE
            || self.sequence == SEQ_FOOTER) ==> target + pad == se
        &&& (self.sequence == SEQ_INDEX_INIT || self.sequence == SEQ_INDEX_DECODE) ==> target + pad
            + HEADER_SIZE_U64 + bs == se
        &&& self.sequence == SEQ_INDEX_DECODE ==> size_ok(self.index_decoder@) && consumed_len(
            self.index_decoder@,
        ) + self.index_remaining == bs
        &&& (self.sequence == SEQ_HEADER_DECODE || self.sequence == SEQ_HEADER_COMPARE) ==> (
        self.this_index matches Some(t) ==> t.last_stream().stream_padding == 0 && file_size_spec(t)
            + pad + target == se + if self.sequence == SEQ_HEADER_DECODE {
            12int
        } else {
            0
        })
    }

    /// The size of the file.
    pub closed spec fn file_size_of(&self) -> u64 {
        self.file_size
    }

    /// The decoder has read every Stream and holds their combined Index.
    pub closed spec fn index_ready(&self) -> bool {
        self.dest_index is Some
    }

    /// The position in the file that the next input byte is taken to have.
    pub closed spec fn cur_pos(&self) -> u64 {
        self.file_cur_pos
    }

    /// The position the decoder last asked the caller to seek to.
    pub closed spec fn seek_target(&self) -> u64 {
        self.seek_pos
    }

    /// The decoder is still reading the Stream Header at the start of the
    /// file.
    pub closed spec fn at_start(&self) -> bool {
        self.sequence == SEQ_MAGIC_BYTES
    }

    /// While at the start, the bytes of the file read so far.
    pub closed spec fn head(&self) -> Seq<u8> {
        self.temp@.take(self.temp_pos as int)
    }

    /// Where the caller is to seek after `LZMA_SEEK_NEEDED`.
    pub fn seek_pos(&self) -> (r: u64)
        ensures
            r == self.seek_target(),
    {
        self.seek_pos
    }

    /// Takes the combined Index out of a decoder that has read all Streams.
    pub fn take_index(&mut self) -> (r: Option<lzma_index_s>)
        requires
            old(self).wf(),
        ensures
            opt_index_wf(r),
            r matches Some(i) ==> streams_flagged(i),
            old(self).index_ready() ==> r is Some,
            r matches Some(i) ==> file_size_spec(i) == old(self).file_size_of(),
    {
        let r = self.dest_index.take();
        r
    }
}

/// Creates a decoder of the Indexes of a file of `file_size` bytes with the
/// memory limit `memlimit` (0 counts as 1).
pub fn lzma_file_info_decoder(memlimit: u64, file_size: u64) -> (c: lzma_file_info_coder)
    ensures
        c.wf(),
        c.file_size_of() == file_size,
        !c.index_ready(),
        c.at_start(),
        c.cur_pos() == 0,
        c.head() == Seq::<u8>::empty(),
{
    let mut temp: Vec<u8> = Vec::new();
    let mut k: usize = 0;
    while k < FILE_INFO_TEMP_SIZE
        invariant
            k <= FILE_INFO_TEMP_SIZE,
            temp@.len() == k,
        decreases FILE_INFO_TEMP_SIZE - k,
    {
        temp.push(0);
        k = k + 1;
    }
    let unknown = StreamFlags { version: 0, backward_size: LZMA_VLI_UNKNOWN, check: 0 };
    lzma_file_info_coder {
        sequence: SEQ_MAGIC_BYTES,
        file_cur_pos: 0,
        file_target_pos: 0,
        file_size,
        index_decoder: lzma_index_decoder(1),
        index_remaining: 0,
        this_index: None,
        stream_padding: 0,
        combined_index: None,
        dest_index: None,
        seek_pos: 0,
        memlimit: if memlimit < 1 {
            1
        } else {
            memlimit
        },
        first_header_flags: unknown,
        header_flags: unknown,
        footer_flags: unknown,
        temp_pos: 0,
        temp_size: LZMA_STREAM_HEADER_SIZE,
        temp,
        stream_end: Ghost(file_size as int),
    }
}

/// Copies input into the window until it holds `temp_size` bytes; tells
/// whether more input is needed.
fn fill_temp(c: &mut lzma_file_info_coder, input: &[u8], in_pos: &mut usize, in_size: usize) -> (more: bool)
    requires
        old(c).temp@.len() == FILE_INFO_TEMP_SIZE,
        old(c).temp_pos <= old(c).temp_size <= FILE_INFO_TEMP_SIZE,
        *old(in_pos) <= in_size <= input@.len(),
        old(c).file_cur_pos + (in_size - *old(in_pos)) <= old(c).file_size,
    ensures
        ({
            let n = *final(in_pos) - *old(in_pos);
            &&& n == (if in_size - *old(in_pos) < old(c).temp_size - old(c).temp_pos {
                in_size - *old(in_pos)
            } else {
                old(c).temp_size - old(c).temp_pos
            })
            &&& final(c).temp_pos == old(c).temp_pos + n
            &&& final(c).file_cur_pos == old(c).file_cur_pos + n
            &&& final(c).temp@ == old(c).temp@.take(old(c).temp_pos as int) + input@.subrange(
                *old(in_pos) as int,
                *final(in_pos) as int,
            ) + old(c).temp@.skip(final(c).temp_pos as int)
            &&& *final(c) == (lzma_file_info_coder {
                temp: final(c).temp,
                temp_pos: final(c).temp_pos,
                file_cur_pos: final(c).file_cur_pos,
                ..*old(c)
            })
            &&& more == (final(c).temp_pos < final(c).temp_size)
        }),
{
    let ts = c.temp_size;
    let n = lzma_bufcpy(input, in_pos, in_size, c.temp.as_mut_slice(), &mut c.temp_pos, ts);
    c.file_cur_pos = c.file_cur_pos + n as u64;
    c.temp_pos < c.temp_size
}

/// Moves to `target_pos` in the file: within the input when it is there,
/// else by asking the caller to seek (true), with the input used up.
fn seek_to_pos(
    c: &mut lzma_file_info_coder,
    target_pos: u64,
    in_start: usize,
    in_pos: &mut usize,
    in_size: usize,
) -> (seek: bool)
    requires
        in_start <= *old(in_pos) <= in_size,
        old(c).file_cur_pos >= *old(in_pos) - in_start,
        old(c).file_cur_pos + (in_size - *old(in_pos)) <= u64::MAX,
    ensures
        ({
            let pos_min = old(c).file_cur_pos - (*old(in_pos) - in_start);
            let pos_max = old(c).file_cur_pos + (in_size - *old(in_pos));
            &&& seek == !(pos_min <= target_pos <= pos_max)
            &&& seek ==> *final(in_pos) == in_size && *final(c) == (lzma_file_info_coder {
                seek_pos: target_pos,
                file_cur_pos: target_pos,
                ..*old(c)
            })
            &&& !seek ==> *final(in_pos) == in_start + (target_pos - pos_min) && *final(c) == (
            lzma_file_info_coder { file_cur_pos: target_pos, ..*old(c) })
        }),
{
    let pos_min = c.file_cur_pos - (*in_pos - in_start) as u64;
    let pos_max = c.file_cur_pos + (in_size - *in_pos) as u64;
    let seek = if target_pos >= pos_min && target_pos <= pos_max {
        *in_pos = in_start + (target_pos - pos_min) as usize;
        false
    } else {
        c.seek_pos = target_pos;
        *in_pos = in_size;
        true
    };
    c.file_cur_pos = target_pos;
    seek
}

/// Sets the window to the bytes before the target position, at most
/// `FILE_INFO_TEMP_SIZE` of them and never the first Stream Header, and
/// moves there: `LZMA_DATA_ERROR` when fewer than two headers' worth of
/// bytes lie before the target.
fn reverse_seek(c: &mut lzma_file_info_coder, in_start: usize, in_pos: &mut usize, in_size: usize) -> (r: u32)
    requires
        in_start <= *old(in_pos) <= in_size,
        old(c).file_cur_pos >= *old(in_pos) - in_start,
        old(c).file_cur_pos + (in_size - *old(in_pos)) <= u64::MAX,
    ensures
        r == LZMA_DATA_ERROR || r == LZMA_OK || r == LZMA_SEEK_NEEDED,
        r == LZMA_DATA_ERROR <==> old(c).file_target_pos < 2 * HEADER_SIZE_U64,
        r == LZMA_DATA_ERROR ==> *final(in_pos) == *old(in_pos) && *final(c) == *old(c),
        r != LZMA_DATA_ERROR ==> {
            let ts = if old(c).file_target_pos - HEADER_SIZE_U64 < FILE_INFO_TEMP_SIZE {
                old(c).file_target_pos - HEADER_SIZE_U64
            } else {
                FILE_INFO_TEMP_SIZE as int
            };
            let pos_min = old(c).file_cur_pos - (*old(in_pos) - in_start);
            let pos_max = old(c).file_cur_pos + (in_size - *old(in_pos));
            let target = old(c).file_target_pos - ts;
            &&& final(c).temp_size == ts
            &&& final(c).temp_pos == 0
            &&& final(c).file_cur_pos == target
            &&& (r == LZMA_SEEK_NEEDED) == !(pos_min <= target <= pos_max)
            &&& r == LZMA_SEEK_NEEDED ==> *final(in_pos) == in_size && final(c).seek_pos == target
            &&& r == LZMA_OK ==> *final(in_pos) == in_start + (target - pos_min)
                && final(c).seek_pos == old(c).seek_pos
            &&& *final(c) == (lzma_file_info_coder {
                temp_size: final(c).temp_size,
                temp_pos: final(c).temp_pos,
                file_cur_pos: final(c).file_cur_pos,
                seek_pos: final(c).seek_pos,
                ..*old(c)
            })
        },
{
    if c.file_target_pos < 2 * HEADER_SIZE_U64 {
        return LZMA_DATA_ERROR;
    }
    c.temp_pos = 0;
    if c.file_target_pos - HEADER_SIZE_U64 < FILE_INFO_TEMP_SIZE as u64 {
        c.temp_size = (c.file_target_pos - HEADER_SIZE_U64) as usize;
    } else {
        c.temp_size = FILE_INFO_TEMP_SIZE;
    }
    let target = c.file_target_pos - c.temp_size as u64;
    if seek_to_pos(c, target, in_start, in_pos, in_size) {
        return LZMA_SEEK_NEEDED;
    }
    LZMA_OK
}

/// Number of zero bytes at the end of the first `buf_size` bytes of `buf`.
fn get_padding_size(buf: &Vec<u8>, buf_size: usize) -> (padding: usize)
    requires
        buf_size <= buf@.len(),
    ensures
        padding <= buf_size,
        forall|j: int| buf_size - padding <= j < buf_size ==> buf@[j] == 0,
        padding < buf_size ==> buf@[buf_size - padding - 1] != 0,
{
    let mut padding: usize = 0;
    let mut n = buf_size;
    while n > 0 && buf[n - 1] == 0
        invariant
            n <= buf_size <= buf@.len(),
            padding == buf_size - n,
            forall|j: int| n <= j < buf_size ==> buf@[j] == 0,
        decreases n,
    {
        n = n - 1;
        padding = padding + 1;
    }
    padding
}

/// `LZMA_FORMAT_ERROR` becomes `LZMA_DATA_ERROR`: past the first Stream
/// Header, a wrong magic means a corrupt file.
fn hide_format_error(ret: u32) -> (r: u32)
    ensures
        r == (if ret == LZMA_FORMAT_ERROR {
            LZMA_DATA_ERROR
        } else {
            ret
        }),
{
    if ret == LZMA_FORMAT_ERROR {
        LZMA_DATA_ERROR
    } else {
        ret
    }
}

/// Twelve bytes of the window from `at`.
fn window_bytes(temp: &Vec<u8>, at: usize) -> (r: [u8; 12])
    requires
        temp@.len() == FILE_INFO_TEMP_SIZE,
        at + 12 <= temp@.len(),
    ensures
        r@ == temp@.subrange(at as int, at + 12),
{
    let b = vstd::slice::slice_subrange(temp.as_slice(), at, at + 12);
    let r = [b[0], b[1], b[2], b[3], b[4], b[5], b[6], b[7], b[8], b[9], b[10], b[11]];
    assert(r@ =~= temp@.subrange(at as int, at + 12));
    r
}

/// Measure of the work left: it goes down at every step that reads no
/// input.
spec fn fi_measure(sequence: u32, target: u64, file_size: u64) -> int {
    if sequence == SEQ_MAGIC_BYTES {
        (file_size + 1) * 8
    } else {
        target * 8 + if sequence == SEQ_FOOTER {
            0int
        } else if sequence == SEQ_PADDING_DECODE {
            1
        } else if sequence == SEQ_PADDING_SEEK {
            2
        } else if sequence == SEQ_HEADER_COMPARE {
            3
        } else if sequence == SEQ_HEADER_DECODE {
            4
        } else if sequence == SEQ_INDEX_DECODE {
            5
        } else {
            6
        }
    }
}

/// The decoder is in a consistent state within a call that started at
/// `in_start` in `input`, the file position `cur0` lying there, with input
/// up to `in_size` that does not go past the end of the file.
spec fn in_call(
    c: lzma_file_info_coder,
    input: Seq<u8>,
    in_start: int,
    in_pos: int,
    in_size: int,
    cur0: int,
) -> bool {
    &&& c.wf()
    &&& cur0 >= 0
    &&& 0 <= in_start <= in_pos <= in_size <= input.len()
    &&& c.file_cur_pos == cur0 + (in_pos - in_start)
    &&& cur0 + (in_size - in_start) <= c.file_size
}

/// A step of the decoder: either it ends the call with `ret`, or it leaves
/// the decoder consistent with less work left.
spec fn step_ok(
    c0: lzma_file_info_coder,
    c: lzma_file_info_coder,
    input: Seq<u8>,
    in_start: int,
    in_pos: int,
    in_size: int,
    cur0: int,
    done: bool,
    ret: u32,
) -> bool {
    &&& in_pos <= in_size
    &&& c.file_size == c0.file_size
    &&& done && ret == LZMA_STREAM_END ==> c.dest_index is Some
    &&& done && ret == LZMA_OK ==> in_pos == in_size && c.file_cur_pos == cur0 + (in_pos
        - in_start)
    &&& done && ret == LZMA_SEEK_NEEDED ==> in_pos == in_size && c.file_cur_pos == c.seek_pos
    &&& done && (ret == LZMA_OK || ret == LZMA_SEEK_NEEDED || ret == LZMA_STREAM_END) ==> c.wf()
    &&& !done ==> in_call(c, input, in_start, in_pos, in_size, cur0) && fi_measure(
        c.sequence,
        c.file_target_pos,
        c.file_size,
    ) < fi_measure(c0.sequence, c0.file_target_pos, c0.file_size)
}

/// How many bytes of input from position `p`, of `len`, lie within the
/// file for the decoder `c`: the input stops at the end of the file.
pub open spec fn input_avail(c: lzma_file_info_coder, len: nat, p: int) -> int {
    if c.file_size_of() - c.cur_pos() < len - p {
        c.file_size_of() - c.cur_pos()
    } else {
        len - p
    }
}

/// What reading the Stream Header at the start of the file gives, from
/// input position `p` with input up to `in_size`: a file shorter than a
/// header is no .xz file; with fewer bytes than the header has, more input
/// is needed; then the header's own error, or `LZMA_DATA_ERROR` for a file
/// size that no .xz file has.
pub open spec fn magic_outcome(
    o: lzma_file_info_coder,
    input: Seq<u8>,
    p: int,
    in_size: int,
    p2: int,
    res: (bool, u32),
) -> bool {
    let fs = o.file_size_of();
    let have = o.head().len();
    let hdr = o.head() + input.subrange(p, p + (12 - have));
    &&& fs < 12 ==> res == (true, LZMA_FORMAT_ERROR) && p2 == p
    &&& (fs >= 12 && have + (in_size - p) < 12) ==> res == (true, LZMA_OK) && p2 == in_size
    &&& (fs >= 12 && have + (in_size - p) >= 12) ==> match header_decode_result(hdr) {
        Err(e) => res == (true, e),
        Ok(_) => (fs > LZMA_VLI_MAX || fs % 4 != 0) ==> res == (true, LZMA_DATA_ERROR),
    }
}

fn step_magic(c: &mut lzma_file_info_coder, input: &[u8], in_start: usize, in_pos: &mut usize, in_size: usize, Ghost(cur0): Ghost<int>) -> (res: (bool, u32))
    requires
        in_call(*old(c), input@, in_start as int, *old(in_pos) as int, in_size as int, cur0),
        old(c).sequence == SEQ_MAGIC_BYTES,
    ensures
        step_ok(*old(c), *final(c), input@, in_start as int, *final(in_pos) as int, in_size as int, cur0, res.0, res.1),
        magic_outcome(*old(c), input@, *old(in_pos) as int, in_size as int, *final(in_pos) as int, res),
{
    if c.file_size < HEADER_SIZE_U64 {
        return (true, LZMA_FORMAT_ERROR);
    }
    let ghost o = *c;
    let ghost p = *in_pos as int;
    if fill_temp(c, input, in_pos, in_size) {
        return (true, LZMA_OK);
    }
    let h = window_bytes(&c.temp, 0);
    assert(h@ =~= o.temp@.take(o.temp_pos as int) + input@.subrange(p, p + (12 - o.temp_pos)));
    let ret = lzma_stream_header_decode(&mut c.first_header_flags, &h);
    if ret != LZMA_OK {
        return (true, ret);
    }
    if c.file_size > LZMA_VLI_MAX || c.file_size % 4 != 0 {
        return (true, LZMA_DATA_ERROR);
    }
    c.file_target_pos = c.file_size;
    c.stream_padding = 0;
    c.sequence = SEQ_PADDING_SEEK;
    (false, LZMA_OK)
}

fn step_padding_seek(c: &mut lzma_file_info_coder, input: &[u8], in_start: usize, in_pos: &mut usize, in_size: usize, Ghost(cur0): Ghost<int>) -> (res: (bool, u32))
    requires
        in_call(*old(c), input@, in_start as int, *old(in_pos) as int, in_size as int, cur0),
        old(c).sequence == SEQ_PADDING_SEEK,
    ensures
        step_ok(*old(c), *final(c), input@, in_start as int, *final(in_pos) as int, in_size as int, cur0, res.0, res.1),
{
    c.sequence = SEQ_PADDING_DECODE;
    let ret = reverse_seek(c, in_start, in_pos, in_size);
    if ret != LZMA_OK {
        return (true, ret);
    }
    (false, LZMA_OK)
}

fn step_padding_decode(c: &mut lzma_file_info_coder, input: &[u8], in_start: usize, in_pos: &mut usize, in_size: usize, Ghost(cur0): Ghost<int>) -> (res: (bool, u32))
    requires
        in_call(*old(c), input@, in_start as int, *old(in_pos) as int, in_size as int, cur0),
        old(c).sequence == SEQ_PADDING_DECODE,
    ensures
        step_ok(*old(c), *final(c), input@, in_start as int, *final(in_pos) as int, in_size as int, cur0, res.0, res.1),
{
    if fill_temp(c, input, in_pos, in_size) {
        return (true, LZMA_OK);
    }
    let new_padding = get_padding_size(&c.temp, c.temp_size);
    c.stream_padding = c.stream_padding + new_padding as u64;
    c.file_target_pos = c.file_target_pos - new_padding as u64;
    if new_padding == c.temp_size {
        c.sequence = SEQ_PADDING_SEEK;
        return (false, LZMA_OK);
    }
    if c.stream_padding % 4 != 0 {
        return (true, LZMA_DATA_ERROR);
    }
    c.sequence = SEQ_FOOTER;
    c.temp_size = c.temp_size - new_padding;
    c.temp_pos = c.temp_size;
    if c.temp_size < LZMA_STREAM_HEADER_SIZE {
        let ret = reverse_seek(c, in_start, in_pos, in_size);
        if ret != LZMA_OK {
            return (true, ret);
        }
    }
    (false, LZMA_OK)
}

fn step_footer(c: &mut lzma_file_info_coder, input: &[u8], in_start: usize, in_pos: &mut usize, in_size: usize, Ghost(cur0): Ghost<int>) -> (res: (bool, u32))
    requires
        in_call(*old(c), input@, in_start as int, *old(in_pos) as int, in_size as int, cur0),
        old(c).sequence == SEQ_FOOTER,
    ensures
        step_ok(*old(c), *final(c), input@, in_start as int, *final(in_pos) as int, in_size as int, cur0, res.0, res.1),
{
    if fill_temp(c, input, in_pos, in_size) {
        return (true, LZMA_OK);
    }
    c.file_target_pos = c.file_target_pos - HEADER_SIZE_U64;
    c.temp_size = c.temp_size - LZMA_STREAM_HEADER_SIZE;
    let f = window_bytes(&c.temp, c.temp_size);
    let ret = hide_format_error(lzma_stream_footer_decode(&mut c.footer_flags, &f));
    if ret != LZMA_OK {
        return (true, ret);
    }
    if c.file_target_pos < c.footer_flags.backward_size + HEADER_SIZE_U64 {
        return (true, LZMA_DATA_ERROR);
    }
    c.file_target_pos = c.file_target_pos - c.footer_flags.backward_size;
    c.sequence = SEQ_INDEX_INIT;
    if c.temp_size as u64 >= c.footer_flags.backward_size {
        c.temp_pos = c.temp_size - c.footer_flags.backward_size as usize;
    } else {
        c.temp_pos = 0;
        c.temp_size = 0;
        let target = c.file_target_pos;
        if seek_to_pos(c, target, in_start, in_pos, in_size) {
            return (true, LZMA_SEEK_NEEDED);
        }
    }
    (false, LZMA_OK)
}

fn step_index_init(c: &mut lzma_file_info_coder, input: &[u8], in_start: usize, in_pos: &mut usize, in_size: usize, Ghost(cur0): Ghost<int>) -> (res: (bool, u32))
    requires
        in_call(*old(c), input@, in_start as int, *old(in_pos) as int, in_size as int, cur0),
        old(c).sequence == SEQ_INDEX_INIT,
    ensures
        step_ok(*old(c), *final(c), input@, in_start as int, *final(in_pos) as int, in_size as int, cur0, res.0, res.1),
{
    let mut memused: u64 = 0;
    match &c.combined_index {
        Some(ci) => {
            memused = lzma_index_memused(ci);
            if memused > c.memlimit {
                return (true, LZMA_PROG_ERROR);
            }
        },
        None => {},
    }
    c.index_decoder = lzma_index_decoder(c.memlimit - memused);
    proof {
        crate::index_coder::lemma_start_size((c.memlimit - memused) as u64);
    }
    c.index_remaining = c.footer_flags.backward_size;
    c.sequence = SEQ_INDEX_DECODE;
    (false, LZMA_OK)
}

fn step_index_decode(c: &mut lzma_file_info_coder, input: &[u8], in_start: usize, in_pos: &mut usize, in_size: usize, Ghost(cur0): Ghost<int>) -> (res: (bool, u32))
    requires
        in_call(*old(c), input@, in_start as int, *old(in_pos) as int, in_size as int, cur0),
        old(c).sequence == SEQ_INDEX_DECODE,
    ensures
        step_ok(*old(c), *final(c), input@, in_start as int, *final(in_pos) as int, in_size as int, cur0, res.0, res.1),
{
    let ghost dm = c.index_decoder@;
    proof {
        c.index_decoder.lemma_model_wf();
    }
    let ret = if c.temp_size != 0 {
        let p0 = c.temp_pos;
        let ts = c.temp_size;
        let window = vstd::slice::slice_subrange(c.temp.as_slice(), 0, ts);
        proof {
            crate::index_coder::lemma_id_run_size(dm, window@.skip(p0 as int));
        }
        let r = index_decode(&mut c.index_decoder, window, &mut c.temp_pos);
        c.index_remaining = c.index_remaining - (c.temp_pos - p0) as u64;
        r
    } else {
        let mut in_stop = in_size;
        if ((in_size - *in_pos) as u64) > c.index_remaining {
            in_stop = *in_pos + c.index_remaining as usize;
        }
        let p0 = *in_pos;
        let part = vstd::slice::slice_subrange(input, 0, in_stop);
        proof {
            crate::index_coder::lemma_id_run_size(dm, part@.skip(p0 as int));
        }
        let r = index_decode(&mut c.index_decoder, part, in_pos);
        c.index_remaining = c.index_remaining - (*in_pos - p0) as u64;
        c.file_cur_pos = c.file_cur_pos + (*in_pos - p0) as u64;
        r
    };
    if ret == LZMA_OK {
        if c.index_remaining == 0 {
            return (true, LZMA_DATA_ERROR);
        }
        return (true, LZMA_OK);
    } else if ret == LZMA_STREAM_END {
        if c.index_remaining != 0 {
            return (true, LZMA_DATA_ERROR);
        }
    } else {
        return (true, ret);
    }
    index_done(c, input, in_start, in_pos, in_size, Ghost(cur0))
}

/// The Index of the Stream is read: takes it from the Index decoder and
/// moves to the Stream Header.
fn index_done(c: &mut lzma_file_info_coder, input: &[u8], in_start: usize, in_pos: &mut usize, in_size: usize, Ghost(cur0): Ghost<int>) -> (res: (bool, u32))
    requires
        in_call(*old(c), input@, in_start as int, *old(in_pos) as int, in_size as int, cur0),
        old(c).sequence == SEQ_INDEX_DECODE,
        old(c).index_remaining == 0,
        old(c).index_decoder@.sequence == crate::index_coder::SEQ_CRC32,
        old(c).index_decoder@.pos == 4,
    ensures
        step_ok(*old(c), *final(c), input@, in_start as int, *final(in_pos) as int, in_size as int, cur0, res.0, res.1),
{
    let mut done = lzma_index_decoder(1);
    core::mem::swap(&mut done, &mut c.index_decoder);
    let ghost em = done@;
    proof {
        done.lemma_model_wf();
    }
    let this = done.into_index();
    proof {
        crate::index::lemma_index_bounds(&this);
        crate::index::lemma_single_stream_size(this);
        let n = em.pairs.len();
        let list = list_of_pairs(em.pairs);
        assert(em.count == 0);
        assert(consumed_len(em) == c.footer_flags.backward_size);
        assert(consumed_len(em) == index_size(n as u64, list as u64));
        assert(this.last_stream().record_count == n);
        assert(this.last_stream().index_list_size == list);
        assert(file_size_spec(this) == 2 * HEADER_SIZE_U64 + this.total_size
            + c.footer_flags.backward_size);
    }
    let seek_amount = lzma_index_total_size(&this) + HEADER_SIZE_U64;
    c.this_index = Some(this);
    if c.file_target_pos < seek_amount {
        return (true, LZMA_DATA_ERROR);
    }
    c.file_target_pos = c.file_target_pos - seek_amount;
    if c.file_target_pos == 0 {
        c.header_flags = c.first_header_flags;
        c.sequence = SEQ_HEADER_COMPARE;
        return (false, LZMA_OK);
    }
    c.sequence = SEQ_HEADER_DECODE;
    c.file_target_pos = c.file_target_pos + HEADER_SIZE_U64;
    if c.temp_size != 0 && (c.temp_size as u64) - c.footer_flags.backward_size >= seek_amount {
        c.temp_pos = ((c.temp_size as u64) - c.footer_flags.backward_size - seek_amount
            + HEADER_SIZE_U64) as usize;
        c.temp_size = c.temp_pos;
    } else {
        let ret = reverse_seek(c, in_start, in_pos, in_size);
        if ret != LZMA_OK {
            return (true, ret);
        }
    }
    (false, LZMA_OK)
}

fn step_header_decode(c: &mut lzma_file_info_coder, input: &[u8], in_start: usize, in_pos: &mut usize, in_size: usize, Ghost(cur0): Ghost<int>) -> (res: (bool, u32))
    requires
        in_call(*old(c), input@, in_start as int, *old(in_pos) as int, in_size as int, cur0),
        old(c).sequence == SEQ_HEADER_DECODE,
    ensures
        step_ok(*old(c), *final(c), input@, in_start as int, *final(in_pos) as int, in_size as int, cur0, res.0, res.1),
{
    if fill_temp(c, input, in_pos, in_size) {
        return (true, LZMA_OK);
    }
    c.file_target_pos = c.file_target_pos - HEADER_SIZE_U64;
    c.temp_size = c.temp_size - LZMA_STREAM_HEADER_SIZE;
    c.temp_pos = c.temp_size;
    let h = window_bytes(&c.temp, c.temp_size);
    let ret = hide_format_error(lzma_stream_header_decode(&mut c.header_flags, &h));
    if ret != LZMA_OK {
        return (true, ret);
    }
    c.sequence = SEQ_HEADER_COMPARE;
    (false, LZMA_OK)
}

fn step_header_compare(c: &mut lzma_file_info_coder, input: &[u8], in_start: usize, in_pos: &mut usize, in_size: usize, Ghost(cur0): Ghost<int>) -> (res: (bool, u32))
    requires
        in_call(*old(c), input@, in_start as int, *old(in_pos) as int, in_size as int, cur0),
        old(c).sequence == SEQ_HEADER_COMPARE,
    ensures
        step_ok(*old(c), *final(c), input@, in_start as int, *final(in_pos) as int, in_size as int, cur0, res.0, res.1),
{
    let ret = lzma_stream_flags_compare(&c.header_flags, &c.footer_flags);
    if ret != LZMA_OK {
        return (true, ret);
    }
    let mut this = match c.this_index.take() {
        Some(i) => i,
        None => {
            return (true, LZMA_PROG_ERROR);
        },
    };
    let ghost t0 = this;
    let ff = c.footer_flags;
    if lzma_index_stream_flags(&mut this, &ff) != LZMA_OK {
        return (true, LZMA_PROG_ERROR);
    }
    let ghost t1 = this;
    if lzma_index_stream_padding(&mut this, c.stream_padding) != LZMA_OK {
        return (true, LZMA_PROG_ERROR);
    }
    proof {
        assert(file_size_spec(t1) == file_size_spec(t0));
        assert(file_size_spec(this) == file_size_spec(t0) + c.stream_padding);
        assert(file_size_spec(this) + c.file_target_pos == c.stream_end@);
    }
    c.stream_padding = 0;
    let ghost t2 = this;
    proof {
        assert(t2.streams@.len() == 1);
        assert(t2.last_stream().stream_flags == ff);
        assert(t2.checks == 0);
        assert(!unknown_flags(ff));
    }
    match c.combined_index.take() {
        Some(ci) => {
            proof {
                crate::index::lemma_index_bounds(&this);
                crate::index::lemma_index_bounds(&ci);
            }
            if ci.streams.len() >= u32::MAX as usize {
                return (true, LZMA_DATA_ERROR);
            }
            let ghost ci0 = ci;
            let ret = lzma_index_cat(&mut this, ci);
            if ret != LZMA_OK {
                return (true, ret);
            }
            proof {
                let ds = this.streams@;
                let cs = ci0.streams@;
                assert(ds[0].stream_flags == ff);
                assert forall|j: int| 0 <= j < cs.len() implies #[trigger] ds[1 + j].stream_flags
                    == cs[j].stream_flags by {
                    assert(ds.skip(1)[j] == ds[1 + j]);
                }
                assert forall|k: int| 0 <= k < ds.len() implies flags_result(
                    #[trigger] ds[k].stream_flags,
                ) == LZMA_OK by {
                    if k > 0 {
                        assert(ds[1 + (k - 1)].stream_flags == cs[k - 1].stream_flags);
                    }
                }
                let dl = ds.drop_last();
                assert forall|j: int| 0 <= j < cs.drop_last().len() implies #[trigger] dl.skip(
                    1,
                )[j].stream_flags == cs.drop_last()[j].stream_flags by {
                    assert(dl.skip(1)[j] == ds[1 + j]);
                }
                lemma_checks_same(dl.skip(1), cs.drop_last());
                assert(dl[0] == ds[0]);
                assert(check_bit(ds[0]) == 1u32 << ff.check);
                lemma_or_facts(1u32 << ff.check, 0, 0);
                assert(this.checks == ((1u32 << ff.check) | ci0.checks));
                assert(streams_flagged(this));
            }
        },
        None => {
            proof {
                assert(this.streams@.drop_last() =~= Seq::<index_stream>::empty());
                assert(this.streams@[0].stream_flags == ff);
                assert(streams_flagged(this));
            }
        },
    }
    assert(file_size_spec(this) + c.file_target_pos == c.file_size);
    if c.file_target_pos == 0 {
        c.dest_index = Some(this);
        c.stream_end = Ghost(c.file_size as int);
        *in_pos = in_size;
        return (true, LZMA_STREAM_END);
    }
    c.stream_end = Ghost(c.file_target_pos as int);
    c.combined_index = Some(this);
    c.sequence = if c.temp_size > 0 {
        SEQ_PADDING_DECODE
    } else {
        SEQ_PADDING_SEEK
    };
    (false, LZMA_OK)
}

/// Decodes the Indexes of the file from `input`, which holds the bytes of
/// the file from the decoder's current position, starting at `*in_pos` and
/// advancing it: `LZMA_OK` when it needs more input, `LZMA_SEEK_NEEDED`
/// when the caller is to seek to `seek_pos()` and give the bytes from
/// there, `LZMA_STREAM_END` when every Stream was read (`take_index` then
/// gives the combined Index), else the error found.
pub fn file_info_decode(c: &mut lzma_file_info_coder, input: &[u8], in_pos: &mut usize) -> (ret: u32)
    requires
        old(c).wf(),
        *old(in_pos) <= input@.len(),
    ensures
        *final(in_pos) <= input@.len(),
        ret == LZMA_OK || ret == LZMA_SEEK_NEEDED || ret == LZMA_STREAM_END ==> final(c).wf(),
        final(c).file_size_of() == old(c).file_size_of(),
        ret == LZMA_STREAM_END ==> final(c).index_ready(),
        ret == LZMA_OK ==> *final(in_pos) == *old(in_pos) + input_avail(*old(c), input@.len(), *old(in_pos) as int)
            && final(c).cur_pos() == old(c).cur_pos() + input_avail(*old(c), input@.len(), *old(in_pos) as int),
        ret == LZMA_SEEK_NEEDED ==> *final(in_pos) == *old(in_pos) + input_avail(*old(c), input@.len(), *old(in_pos) as int)
            && final(c).cur_pos() == final(c).seek_target() && final(c).seek_target() <= final(c).file_size_of(),
        old(c).at_start() ==> old(c).cur_pos() == old(c).head().len(),
        old(c).at_start() ==> magic_outcome(
            *old(c),
            input@,
            *old(in_pos) as int,
            *old(in_pos) + input_avail(*old(c), input@.len(), *old(in_pos) as int),
            *final(in_pos) as int,
            (true, ret),
        ),
{
    let in_start = *in_pos;
    let mut in_size = input.len();
    if c.file_size - c.file_cur_pos < (in_size - in_start) as u64 {
        in_size = in_start + (c.file_size - c.file_cur_pos) as usize;
    }
    let ghost cur0 = c.file_cur_pos as int;
    if c.sequence == SEQ_MAGIC_BYTES {
        let res = step_magic(c, input, in_start, in_pos, in_size, Ghost(cur0));
        if res.0 {
            return res.1;
        }
    }
    loop
        invariant
            in_call(*c, input@, in_start as int, *in_pos as int, in_size as int, cur0),
            c.file_size == old(c).file_size,
            in_start == *old(in_pos),
            cur0 == old(c).file_cur_pos,
            in_size == in_start + input_avail(*old(c), input@.len(), in_start as int),
            old(c).at_start() ==> old(c).cur_pos() == old(c).head().len() && magic_outcome(
                *old(c),
                input@,
                in_start as int,
                in_size as int,
                in_start as int,
                (false, LZMA_OK),
            ),
        decreases fi_measure(c.sequence, c.file_target_pos, c.file_size),
    {
        let res = if c.sequence == SEQ_MAGIC_BYTES {
            step_magic(c, input, in_start, in_pos, in_size, Ghost(cur0))
        } else if c.sequence == SEQ_PADDING_SEEK {
            step_padding_seek(c, input, in_start, in_pos, in_size, Ghost(cur0))
        } else if c.sequence == SEQ_PADDING_DECODE {
            step_padding_decode(c, input, in_start, in_pos, in_size, Ghost(cur0))
        } else if c.sequence == SEQ_FOOTER {
            step_footer(c, input, in_start, in_pos, in_size, Ghost(cur0))
        } else if c.sequence == SEQ_INDEX_INIT {
            step_index_init(c, input, in_start, in_pos, in_size, Ghost(cur0))
        } else if c.sequence == SEQ_INDEX_DECODE {
            step_index_decode(c, input, in_start, in_pos, in_size, Ghost(cur0))
        } else if c.sequence == SEQ_HEADER_DECODE {
            step_header_decode(c, input, in_start, in_pos, in_size, Ghost(cur0))
        } else {
            step_header_compare(c, input, in_start, in_pos, in_size, Ghost(cur0))
        };
        if res.0 {
            return res.1;
        }
    }
}

/// Memory the Index `i`, when there is one, needs.
pub open spec fn opt_memused(i: Option<lzma_index_s>) -> u64 {
    match i {
        Some(x) => memusage_spec(x.streams@.len() as u64, x.record_count),
        None => 0,
    }
}

impl lzma_file_info_coder {
    /// Memory the decoder's Indexes need: the combined Index, and the Index
    /// of the Stream being read or, while it is being decoded, what its
    /// Number of Records needs; with nothing yet, what an empty Index needs.
    pub closed spec fn memusage_of(&self) -> u64 {
        let this_mu: u64 = match self.this_index {
            Some(x) => memusage_spec(x.streams@.len() as u64, x.record_count),
            None => if self.sequence == SEQ_INDEX_DECODE {
                memusage_spec(1, self.index_decoder@.count)
            } else {
                0
            },
        };
        let sum = ((opt_memused(self.combined_index) + this_mu) % 0x1_0000_0000_0000_0000) as u64;
        if sum == 0 {
            memusage_spec(1, 0)
        } else {
            sum
        }
    }

    /// The memory limit.
    pub closed spec fn memlimit_of(&self) -> u64 {
        self.memlimit
    }
}

/// Reports the memory the decoder needs (`memusage`) and its memory limit
/// (`old_memlimit`); sets a new limit when `new_memlimit` is not 0:
/// `LZMA_MEMLIMIT_ERROR`, the limit kept, when it is below that need.
#[verifier::rlimit(50)]
pub fn file_info_decoder_memconfig(
    c: &mut lzma_file_info_coder,
    memusage: &mut u64,
    old_memlimit: &mut u64,
    new_memlimit: u64,
) -> (r: u32)
    requires
        old(c).wf(),
    ensures
        *final(memusage) == old(c).memusage_of(),
        *final(old_memlimit) == old(c).memlimit_of(),
        r == LZMA_OK || r == LZMA_MEMLIMIT_ERROR || r == LZMA_PROG_ERROR,
        r == LZMA_MEMLIMIT_ERROR <==> new_memlimit != 0 && new_memlimit < old(c).memusage_of(),
        r == LZMA_OK ==> final(c).wf() && final(c).memlimit_of() == (if new_memlimit == 0 {
            old(c).memlimit_of()
        } else {
            new_memlimit
        }),
{
    let mut combined_mu: u64 = 0;
    let mut this_mu: u64 = 0;
    match &c.combined_index {
        Some(ci) => {
            combined_mu = lzma_index_memused(ci);
        },
        None => {},
    }
    match &c.this_index {
        Some(ti) => {
            this_mu = lzma_index_memused(ti);
        },
        None => {
            if c.sequence == SEQ_INDEX_DECODE {
                let mut dummy: u64 = 0;
                index_decoder_memconfig(&mut c.index_decoder, &mut this_mu, &mut dummy, 0);
            }
        },
    }
    *memusage = combined_mu.wrapping_add(this_mu);
    if *memusage == 0 {
        *memusage = lzma_index_memusage(1, 0);
    }
    *old_memlimit = c.memlimit;
    if new_memlimit != 0 {
        if new_memlimit < *memusage {
            return LZMA_MEMLIMIT_ERROR;
        }
        if c.this_index.is_none() && c.sequence == SEQ_INDEX_DECODE {
            let idec_new = new_memlimit.wrapping_sub(combined_mu);
            let mut d1: u64 = 0;
            let mut d2: u64 = 0;
            if index_decoder_memconfig(&mut c.index_decoder, &mut d1, &mut d2, idec_new) != LZMA_OK {
                return LZMA_PROG_ERROR;
            }
        }
        c.memlimit = new_memlimit;
    }
    LZMA_OK
}

} // verus!
