//! The decisions of the single-threaded .xz Stream decoder: reading the
//! Stream Header, each Block Header, the Index and the Stream Footer,
//! checking them against one another, and skipping Stream Padding between
//! concatenated Streams. The Block data itself is decoded by the caller's
//! Block coder; the decoder is told when a Block has ended and with which
//! sizes.
use vstd::prelude::*;
use crate::block::lzma_block;
use crate::block_header::{decode_start, header_filters_parse, lzma_block_header_decode, padded_chain};
use crate::filter::{Filter, FilterOptions};
use crate::check::{check_supported_spec, lzma_check_is_supported};
use crate::index_hash::{
    ih_fresh, ih_run, info_append, info_append_fits, lzma_index_hash_append,
    lzma_index_hash_decode, lzma_index_hash_init, lzma_index_hash_s, lzma_index_hash_size,
    IndexHashModel,
};
use crate::index_size::index_size;
use crate::stream_decoder_mt::LZMA_SUPPORTED_FLAGS;
use crate::stream_flags::{
    flags_compare, footer_decode_result, lzma_stream_flags_compare, lzma_stream_footer_decode,
    lzma_stream_header_decode, StreamFlags,
};
use crate::types::{
    LZMA_CHECK_NONE, LZMA_CONCATENATED, LZMA_DATA_ERROR, LZMA_FORMAT_ERROR,
    LZMA_GET_CHECK, LZMA_IGNORE_CHECK, LZMA_MEMLIMIT_ERROR, LZMA_NO_CHECK, LZMA_OK, LZMA_OPTIONS_ERROR,
    LZMA_PROG_ERROR, LZMA_STREAM_END, LZMA_TELL_ANY_CHECK, LZMA_TELL_NO_CHECK,
    LZMA_TELL_UNSUPPORTED_CHECK, LZMA_UNSUPPORTED_CHECK, LZMA_VLI_MAX, LZMA_VLI_UNKNOWN,
    UNPADDED_SIZE_MAX, UNPADDED_SIZE_MIN,
};

verus! {

/// Reading the Stream Header.
pub const SEQ_STREAM_HEADER: u32 = 0;
/// Reading a Block Header, or finding the Index Indicator.
pub const SEQ_BLOCK_HEADER: u32 = 1;
/// A whole Block Header has been read and is to be decoded.
pub const SEQ_BLOCK_INIT: u32 = 2;
/// The Block coder of the caller is running.
pub const SEQ_BLOCK_RUN: u32 = 3;
/// Reading the Index.
pub const SEQ_INDEX: u32 = 4;
/// Reading the Stream Footer.
pub const SEQ_STREAM_FOOTER: u32 = 5;
/// Skipping Stream Padding after a Stream.
pub const SEQ_STREAM_PADDING: u32 = 6;

/// Size of a Stream Header and of a Stream Footer.
pub const STREAM_HEADER_SIZE: usize = 12;

/// Memory a coder counts before any filter.
pub const LZMA_MEMUSAGE_BASE: u64 = 0x8000;

/// The flags a Stream decoder was made with.
#[derive(Clone, Copy, Debug, PartialEq, Eq, Structural)]
pub struct StreamDecoderFlags {
    /// Return `LZMA_NO_CHECK` after a Stream Header without a check.
    pub tell_no_check: bool,
    /// Return `LZMA_UNSUPPORTED_CHECK` after a Stream Header whose check
    /// cannot be verified.
    pub tell_unsupported_check: bool,
    /// Return `LZMA_GET_CHECK` after every Stream Header.
    pub tell_any_check: bool,
    /// Do not verify the checks of the Blocks.
    pub ignore_check: bool,
    /// Go on past the first Stream, over Stream Padding, to the next one.
    pub concatenated: bool,
}

/// What the decoder asks of its caller after a step.
#[derive(Clone, Copy, Debug, PartialEq, Eq, Structural)]
pub enum StreamStep {
    /// Step again: the decoder moved on without needing anything.
    Continue,
    /// Run a Block coder for the Block of `block()` over the input that
    /// follows, and step again with its sizes once it has ended.
    RunBlock,
    /// Return this code to the user.
    Done(u32),
}

/// The state of a Stream decoder.
pub struct StreamDecoderModel {
    pub sequence: u32,
    /// The bytes of the header, footer or Block Header read so far.
    pub buffer: Seq<u8>,
    /// The flags of the Stream Header of the current Stream.
    pub stream_flags: StreamFlags,
    /// The options of the current Block.
    pub block: lzma_block,
    pub index_hash: IndexHashModel,
    /// How many Stream Padding bytes were skipped, modulo four.
    pub padding: nat,
    pub flags: StreamDecoderFlags,
    /// No Stream Header has been decoded yet.
    pub first_stream: bool,
    /// The memory the decoder may use.
    pub memlimit: u64,
    /// The memory the filters of the last Block needed.
    pub memusage: u64,
}

/// A single-threaded .xz Stream decoder.
pub struct StreamDecoder {
    sequence: u32,
    buffer: Vec<u8>,
    stream_flags: StreamFlags,
    block: lzma_block,
    index_hash: lzma_index_hash_s,
    padding: u32,
    flags: StreamDecoderFlags,
    first_stream: bool,
    memlimit: u64,
    memusage: u64,
}

impl View for StreamDecoder {
    type V = StreamDecoderModel;

    closed spec fn view(&self) -> StreamDecoderModel {
        StreamDecoderModel {
            sequence: self.sequence,
            buffer: self.buffer@,
            stream_flags: self.stream_flags,
            block: self.block,
            index_hash: self.index_hash@,
            padding: self.padding as nat,
            flags: self.flags,
            first_stream: self.first_stream,
            memlimit: self.memlimit,
            memusage: self.memusage,
        }
    }
}

/// The Block Header size that its first byte gives.
pub open spec fn header_size_of(first: u8) -> u32 {
    ((first as u32 + 1) * 4) as u32
}

/// The decoder state `m` is one the decoder can be in.
pub open spec fn sd_model_wf(m: StreamDecoderModel) -> bool {
    &&& m.sequence <= SEQ_STREAM_PADDING
    &&& m.memlimit >= 1
    &&& m.block.check == m.stream_flags.check
    &&& m.padding < 4
    &&& (m.sequence == SEQ_STREAM_HEADER || m.sequence == SEQ_STREAM_FOOTER) ==> m.buffer.len()
        < 12
    &&& m.sequence == SEQ_BLOCK_HEADER ==> m.buffer.len() == 0 || (m.block.header_size
        == header_size_of(m.buffer[0]) && m.buffer.len() < m.block.header_size)
    &&& (m.sequence == SEQ_BLOCK_INIT || m.sequence == SEQ_BLOCK_RUN) ==> m.buffer.len()
        == m.block.header_size && m.block.header_size <= 1024
    &&& (m.sequence == SEQ_INDEX || m.sequence == SEQ_STREAM_PADDING) ==> m.buffer.len() == 0
}

impl StreamDecoder {
    /// The decoder is consistent.
    pub closed spec fn wf(&self) -> bool {
        &&& self.index_hash.wf()
        &&& sd_model_wf(self@)
    }

    /// The options of the Block to decode, after `RunBlock`.
    pub fn block(&self) -> (r: lzma_block)
        ensures
            r == self@.block,
    {
        self.block
    }

    /// The bytes of the Block Header, after `RunBlock`.
    pub fn block_header(&self) -> (r: &[u8])
        ensures
            r@ == self@.buffer,
    {
        self.buffer.as_slice()
    }

    /// The check of the current Stream, as its Stream Header gives it.
    pub fn get_check(&self) -> (r: u32)
        ensures
            r == self@.stream_flags.check,
    {
        self.stream_flags.check
    }
}

/// How many bytes a copy into a buffer that holds `have` of `need` takes
/// from `avail` bytes of input.
pub open spec fn fill_len(have: int, need: int, avail: int) -> int {
    if need - have <= avail {
        need - have
    } else {
        avail
    }
}

/// A code that lets decoding go on.
pub open spec fn code_continues(code: u32) -> bool {
    code == LZMA_OK || code == LZMA_STREAM_END || code == LZMA_NO_CHECK || code
        == LZMA_UNSUPPORTED_CHECK || code == LZMA_GET_CHECK
}

/// After this step the decoder is still in a state it can go on from.
pub open spec fn step_continues(step: StreamStep) -> bool {
    match step {
        StreamStep::Done(code) => code_continues(code),
        _ => true,
    }
}

/// What a new decoder made with `flags` and the memory limit `memlimit`
/// is.
pub open spec fn sd_initial(
    flags: StreamDecoderFlags,
    memlimit: u64,
    block: lzma_block,
    stream_flags: StreamFlags,
) -> StreamDecoderModel {
    StreamDecoderModel {
        sequence: SEQ_STREAM_HEADER,
        buffer: Seq::empty(),
        stream_flags,
        block,
        index_hash: ih_fresh(),
        padding: 0,
        flags,
        first_stream: true,
        memlimit: if memlimit < 1 {
            1
        } else {
            memlimit
        },
        memusage: LZMA_MEMUSAGE_BASE,
    }
}

/// One step over the Stream Header, the bytes after the ones buffered being
/// `rest`.
pub open spec fn sd_header_step(
    m: StreamDecoderModel,
    rest: Seq<u8>,
    m2: StreamDecoderModel,
    step: StreamStep,
    n: int,
) -> bool {
    let k = fill_len(m.buffer.len() as int, 12, rest.len() as int);
    let buf = m.buffer + rest.take(k);
    &&& n == k
    &&& if buf.len() < 12 {
        m2 == StreamDecoderModel { buffer: buf, ..m } && step == StreamStep::Done(LZMA_OK)
    } else {
        match crate::stream_flags::header_decode_result(buf) {
            Err(e) => {
                &&& m2 == StreamDecoderModel { buffer: Seq::empty(), ..m }
                &&& step == StreamStep::Done(
                    if e == LZMA_FORMAT_ERROR && !m.first_stream {
                        LZMA_DATA_ERROR
                    } else {
                        e
                    },
                )
            },
            Ok(f) => {
                &&& m2 == StreamDecoderModel {
                    sequence: SEQ_BLOCK_HEADER,
                    buffer: Seq::empty(),
                    stream_flags: f,
                    block: lzma_block { check: f.check, ..m.block },
                    first_stream: false,
                    ..m
                }
                &&& step == if m.flags.tell_no_check && f.check == LZMA_CHECK_NONE {
                    StreamStep::Done(LZMA_NO_CHECK)
                } else if m.flags.tell_unsupported_check && !check_supported_spec(f.check) {
                    StreamStep::Done(LZMA_UNSUPPORTED_CHECK)
                } else if m.flags.tell_any_check {
                    StreamStep::Done(LZMA_GET_CHECK)
                } else {
                    StreamStep::Continue
                }
            },
        }
    }
}

/// One step over a Block Header or the Index Indicator.
pub open spec fn sd_block_header_step(
    m: StreamDecoderModel,
    rest: Seq<u8>,
    m2: StreamDecoderModel,
    step: StreamStep,
    n: int,
) -> bool {
    if rest.len() == 0 {
        m2 == m && step == StreamStep::Done(LZMA_OK) && n == 0
    } else if m.buffer.len() == 0 && rest[0] == 0 {
        m2 == StreamDecoderModel { sequence: SEQ_INDEX, ..m } && step == StreamStep::Continue && n
            == 0
    } else {
        let hs = if m.buffer.len() == 0 {
            header_size_of(rest[0])
        } else {
            m.block.header_size
        };
        let k = fill_len(m.buffer.len() as int, hs as int, rest.len() as int);
        let buf = m.buffer + rest.take(k);
        let b = lzma_block { header_size: hs, ..m.block };
        &&& n == k
        &&& if buf.len() < hs {
            m2 == StreamDecoderModel { buffer: buf, block: b, ..m } && step == StreamStep::Done(
                LZMA_OK,
            )
        } else {
            m2 == StreamDecoderModel { sequence: SEQ_BLOCK_INIT, buffer: buf, block: b, ..m }
                && step == StreamStep::Continue
        }
    }
}

/// Decoding the buffered Block Header.
pub open spec fn sd_block_init_step(m: StreamDecoderModel, m2: StreamDecoderModel, step: StreamStep)
    -> bool {
    let b = lzma_block { version: 1, ..m.block };
    let hs = b.header_size as int;
    match crate::block_header::header_decode_result(b, m.buffer) {
        Err(e) => m2 == m && step == StreamStep::Done(e),
        Ok(d) => {
            &&& m2 == StreamDecoderModel { sequence: SEQ_BLOCK_RUN, block: m2.block, ..m }
            &&& m2.block == lzma_block {
                filters: m2.block.filters,
                ignore_check: m.flags.ignore_check,
                ..d
            }
            &&& m2.block.filters@ == padded_chain(
                header_filters_parse(decode_start(b), m.buffer.take(hs - 4), m.buffer[1]),
            )
            &&& step == StreamStep::RunBlock
        },
    }
}

/// A step while the caller's Block coder runs; `ended` holds the Unpadded
/// Size and Uncompressed Size of the Block once it has ended.
pub open spec fn sd_block_run_step(
    m: StreamDecoderModel,
    ended: Option<(u64, u64)>,
    m2: StreamDecoderModel,
    step: StreamStep,
) -> bool {
    match ended {
        None => m2 == m && step == StreamStep::RunBlock,
        Some((unpadded, uncompressed)) => {
            let ih = m.index_hash;
            if ih.sequence != crate::index_hash::SEQ_BLOCK || unpadded < UNPADDED_SIZE_MIN
                || unpadded > UNPADDED_SIZE_MAX || uncompressed > LZMA_VLI_MAX {
                m2 == m && step == StreamStep::Done(LZMA_PROG_ERROR)
            } else if !info_append_fits(ih.blocks, unpadded, uncompressed) {
                m2 == m && step == StreamStep::Done(LZMA_DATA_ERROR)
            } else {
                &&& m2 == StreamDecoderModel {
                    sequence: SEQ_BLOCK_HEADER,
                    buffer: Seq::empty(),
                    index_hash: IndexHashModel {
                        blocks: info_append(ih.blocks, unpadded, uncompressed),
                        ..ih
                    },
                    ..m
                }
                &&& step == StreamStep::Continue
            }
        },
    }
}

/// One step over the Index.
pub open spec fn sd_index_step(
    m: StreamDecoderModel,
    rest: Seq<u8>,
    m2: StreamDecoderModel,
    step: StreamStep,
    n: int,
) -> bool {
    if rest.len() == 0 {
        m2 == m && step == StreamStep::Done(LZMA_OK) && n == 0
    } else {
        let r = ih_run(m.index_hash, rest);
        &&& n == r.2
        &&& if r.1 == LZMA_STREAM_END {
            m2 == StreamDecoderModel { sequence: SEQ_STREAM_FOOTER, index_hash: r.0, ..m } && step
                == StreamStep::Continue
        } else if r.1 == LZMA_OK {
            m2 == StreamDecoderModel { index_hash: r.0, ..m } && step == StreamStep::Done(LZMA_OK)
        } else {
            m2 == StreamDecoderModel { index_hash: m2.index_hash, ..m } && step == StreamStep::Done(
                r.1,
            )
        }
    }
}

/// One step over the Stream Footer.
pub open spec fn sd_footer_step(
    m: StreamDecoderModel,
    rest: Seq<u8>,
    m2: StreamDecoderModel,
    step: StreamStep,
    n: int,
) -> bool {
    let k = fill_len(m.buffer.len() as int, 12, rest.len() as int);
    let buf = m.buffer + rest.take(k);
    let cleared = StreamDecoderModel { buffer: Seq::empty(), ..m };
    &&& n == k
    &&& if buf.len() < 12 {
        m2 == StreamDecoderModel { buffer: buf, ..m } && step == StreamStep::Done(LZMA_OK)
    } else {
        match footer_decode_result(buf) {
            Err(e) => m2 == cleared && step == StreamStep::Done(
                if e == LZMA_FORMAT_ERROR {
                    LZMA_DATA_ERROR
                } else {
                    e
                },
            ),
            Ok(f) => if index_size(m.index_hash.blocks.count, m.index_hash.blocks.index_list_size)
                != f.backward_size {
                m2 == cleared && step == StreamStep::Done(LZMA_DATA_ERROR)
            } else if flags_compare(m.stream_flags, f) != LZMA_OK {
                m2 == cleared && step == StreamStep::Done(flags_compare(m.stream_flags, f))
            } else if !m.flags.concatenated {
                m2 == cleared && step == StreamStep::Done(LZMA_STREAM_END)
            } else {
                m2 == StreamDecoderModel { sequence: SEQ_STREAM_PADDING, padding: 0, ..cleared }
                    && step == StreamStep::Continue
            },
        }
    }
}

/// One step over Stream Padding: one byte at a time, the end of input
/// ending the whole input only when `finish` is set.
pub open spec fn sd_padding_step(
    m: StreamDecoderModel,
    rest: Seq<u8>,
    finish: bool,
    m2: StreamDecoderModel,
    step: StreamStep,
    n: int,
) -> bool {
    if rest.len() == 0 {
        &&& m2 == m
        &&& n == 0
        &&& step == StreamStep::Done(
            if !finish {
                LZMA_OK
            } else if m.padding == 0 {
                LZMA_STREAM_END
            } else {
                LZMA_DATA_ERROR
            },
        )
    } else if rest[0] == 0 {
        m2 == StreamDecoderModel { padding: (m.padding + 1) % 4, ..m } && step
            == StreamStep::Continue && n == 1
    } else if m.padding != 0 {
        m2 == m && step == StreamStep::Done(LZMA_DATA_ERROR) && n == 1
    } else {
        &&& m2 == StreamDecoderModel {
            sequence: SEQ_STREAM_HEADER,
            buffer: Seq::empty(),
            index_hash: ih_fresh(),
            ..m
        }
        &&& step == StreamStep::Continue
        &&& n == 0
    }
}

/// One step of the Stream decoder from state `m`, the input from the current
/// position on being `rest`: it goes to `m2`, asks `step` of the caller and
/// takes `n` bytes of input.
pub open spec fn sd_step(
    m: StreamDecoderModel,
    rest: Seq<u8>,
    ended: Option<(u64, u64)>,
    finish: bool,
    m2: StreamDecoderModel,
    step: StreamStep,
    n: int,
) -> bool {
    if m.sequence == SEQ_STREAM_HEADER {
        sd_header_step(m, rest, m2, step, n)
    } else if m.sequence == SEQ_BLOCK_HEADER {
        sd_block_header_step(m, rest, m2, step, n)
    } else if m.sequence == SEQ_BLOCK_INIT {
        sd_block_init_step(m, m2, step) && n == 0
    } else if m.sequence == SEQ_BLOCK_RUN {
        sd_block_run_step(m, ended, m2, step) && n == 0
    } else if m.sequence == SEQ_INDEX {
        sd_index_step(m, rest, m2, step, n)
    } else if m.sequence == SEQ_STREAM_FOOTER {
        sd_footer_step(m, rest, m2, step, n)
    } else {
        sd_padding_step(m, rest, finish, m2, step, n)
    }
}

/// Decoding a Stream Header hands its check to the Blocks: when a step reads
/// a Stream Header that decodes to `f`, the decoder goes on with `f` as the
/// Stream's flags and with `f.check` as the check of the Blocks.
pub proof fn law_header_gives_block_check(
    m: StreamDecoderModel,
    rest: Seq<u8>,
    ended: Option<(u64, u64)>,
    finish: bool,
    m2: StreamDecoderModel,
    step: StreamStep,
    n: int,
)
    requires
        m.sequence == SEQ_STREAM_HEADER,
        sd_step(m, rest, ended, finish, m2, step, n),
        crate::stream_flags::header_decode_result(m.buffer + rest.take(n)) is Ok,
        m.buffer.len() + n == 12,
    ensures
        m2.sequence == SEQ_BLOCK_HEADER,
        m2.stream_flags == crate::stream_flags::header_decode_result(m.buffer + rest.take(n))->Ok_0,
        m2.block.check == m2.stream_flags.check,
{
}

/// Every step keeps the check of the Blocks the one of the current Stream's
/// flags: the Block coder always checks a Block with the check its Stream
/// Header names.
pub proof fn law_step_keeps_block_check(
    m: StreamDecoderModel,
    rest: Seq<u8>,
    ended: Option<(u64, u64)>,
    finish: bool,
    m2: StreamDecoderModel,
    step: StreamStep,
    n: int,
)
    requires
        m.block.check == m.stream_flags.check,
        sd_step(m, rest, ended, finish, m2, step, n),
    ensures
        m2.block.check == m2.stream_flags.check,
{
    if m.sequence == SEQ_BLOCK_INIT {
        let b = lzma_block { version: 1, ..m.block };
        crate::block_header::lemma_header_decode_keeps_check(b, m.buffer);
    }
}

/// Makes a Stream decoder for the decoder flags `flags` and the memory limit
/// `memlimit`: `LZMA_OPTIONS_ERROR` for a flag this library does not know,
/// otherwise a decoder at the start of the first Stream, with each flag read
/// from `flags` and a memory limit of at least 1.
pub fn lzma_stream_decoder_init(memlimit: u64, flags: u32) -> (r: Result<StreamDecoder, u32>)
    ensures
        r is Err <==> flags & !LZMA_SUPPORTED_FLAGS != 0,
        r matches Err(e) ==> e == LZMA_OPTIONS_ERROR,
        r matches Ok(c) ==> {
            &&& c.wf()
            &&& c@ == sd_initial(
                StreamDecoderFlags {
                    tell_no_check: flags & LZMA_TELL_NO_CHECK != 0,
                    tell_unsupported_check: flags & LZMA_TELL_UNSUPPORTED_CHECK != 0,
                    tell_any_check: flags & LZMA_TELL_ANY_CHECK != 0,
                    ignore_check: flags & LZMA_IGNORE_CHECK != 0,
                    concatenated: flags & LZMA_CONCATENATED != 0,
                },
                memlimit,
                c@.block,
                c@.stream_flags,
            )
        },
{
    if flags & !LZMA_SUPPORTED_FLAGS != 0 {
        return Err(LZMA_OPTIONS_ERROR);
    }
    let flags = StreamDecoderFlags {
        tell_no_check: flags & LZMA_TELL_NO_CHECK != 0,
        tell_unsupported_check: flags & LZMA_TELL_UNSUPPORTED_CHECK != 0,
        tell_any_check: flags & LZMA_TELL_ANY_CHECK != 0,
        ignore_check: flags & LZMA_IGNORE_CHECK != 0,
        concatenated: flags & LZMA_CONCATENATED != 0,
    };
    let end = Filter { id: LZMA_VLI_UNKNOWN, options: FilterOptions::Absent };
    let block = lzma_block {
        version: 1,
        header_size: 0,
        check: 0,
        compressed_size: LZMA_VLI_UNKNOWN,
        uncompressed_size: LZMA_VLI_UNKNOWN,
        filters: [end, end, end, end, end],
        ignore_check: false,
        raw_check: [0u8, 0u8, 0u8, 0u8, 0u8, 0u8, 0u8, 0u8, 0u8, 0u8, 0u8, 0u8, 0u8, 0u8, 0u8, 0u8, 0u8, 0u8, 0u8, 0u8, 0u8, 0u8, 0u8, 0u8, 0u8, 0u8, 0u8, 0u8, 0u8, 0u8, 0u8, 0u8, 0u8, 0u8, 0u8, 0u8, 0u8, 0u8, 0u8, 0u8, 0u8, 0u8, 0u8, 0u8, 0u8, 0u8, 0u8, 0u8, 0u8, 0u8, 0u8, 0u8, 0u8, 0u8, 0u8, 0u8, 0u8, 0u8, 0u8, 0u8, 0u8, 0u8, 0u8, 0u8],
    };
    Ok(
        StreamDecoder {
            sequence: SEQ_STREAM_HEADER,
            buffer: Vec::new(),
            stream_flags: StreamFlags { version: 0, backward_size: LZMA_VLI_UNKNOWN, check: 0 },
            block,
            index_hash: lzma_index_hash_init(),
            padding: 0,
            flags,
            first_stream: true,
            memlimit: if memlimit < 1 {
                1
            } else {
                memlimit
            },
            memusage: LZMA_MEMUSAGE_BASE,
        },
    )
}

/// Takes the memory the filters of the Block of `block()` need, as the
/// caller's Block coder computes it (`u64::MAX` for filters it does not
/// know), before that coder starts: `LZMA_OPTIONS_ERROR` for unknown
/// filters, else the need is recorded and the answer is
/// `LZMA_MEMLIMIT_ERROR` when it is above the limit, `LZMA_OK` otherwise.
pub fn stream_decoder_block_memusage(c: &mut StreamDecoder, memusage: u64) -> (ret: u32)
    requires
        old(c).wf(),
    ensures
        final(c).wf(),
        memusage == u64::MAX ==> ret == LZMA_OPTIONS_ERROR && final(c)@ == old(c)@,
        memusage != u64::MAX ==> final(c)@ == (StreamDecoderModel { memusage, ..old(c)@ }) && ret
            == if memusage > old(c)@.memlimit {
            LZMA_MEMLIMIT_ERROR
        } else {
            LZMA_OK
        },
{
    if memusage == u64::MAX {
        return LZMA_OPTIONS_ERROR;
    }
    c.memusage = memusage;
    if memusage > c.memlimit {
        LZMA_MEMLIMIT_ERROR
    } else {
        LZMA_OK
    }
}

/// Reports the memory the decoder needs and its memory limit, and sets a
/// new limit when `new_memlimit` is not 0: `LZMA_MEMLIMIT_ERROR`, the limit
/// kept, when the new limit is below what is needed.
pub fn stream_decoder_memconfig(c: &mut StreamDecoder, new_memlimit: u64) -> (r: (u64, u64, u32))
    requires
        old(c).wf(),
    ensures
        final(c).wf(),
        r.0 == old(c)@.memusage,
        r.1 == old(c)@.memlimit,
        new_memlimit != 0 && new_memlimit < old(c)@.memusage ==> r.2 == LZMA_MEMLIMIT_ERROR
            && final(c)@ == old(c)@,
        !(new_memlimit != 0 && new_memlimit < old(c)@.memusage) ==> r.2 == LZMA_OK && final(c)@
            == (StreamDecoderModel {
            memlimit: if new_memlimit == 0 {
                old(c)@.memlimit
            } else {
                new_memlimit
            },
            ..old(c)@
        }),
{
    let memusage = c.memusage;
    let old_memlimit = c.memlimit;
    if new_memlimit != 0 {
        if new_memlimit < c.memusage {
            return (memusage, old_memlimit, LZMA_MEMLIMIT_ERROR);
        }
        c.memlimit = new_memlimit;
    }
    (memusage, old_memlimit, LZMA_OK)
}

/// Copies input into `buf` until it holds `need` bytes or the input ends.
fn fill(buf: &mut Vec<u8>, input: &[u8], in_pos: &mut usize, need: usize)
    requires
        old(buf)@.len() <= need,
        *old(in_pos) <= input@.len(),
    ensures
        ({
            let k = fill_len(
                old(buf)@.len() as int,
                need as int,
                input@.len() - *old(in_pos),
            );
            &&& *final(in_pos) == *old(in_pos) + k
            &&& final(buf)@ == old(buf)@ + input@.skip(*old(in_pos) as int).take(k)
        }),
{
    let ghost b0 = buf@;
    let ghost p0 = *in_pos;
    while buf.len() < need && *in_pos < input.len()
        invariant
            p0 <= *in_pos <= input@.len(),
            buf@.len() <= need,
            buf@.len() - b0.len() == *in_pos - p0,
            buf@ == b0 + input@.subrange(p0 as int, *in_pos as int),
            b0.len() <= need,
        decreases need - buf.len(),
    {
        buf.push(input[*in_pos]);
        *in_pos = *in_pos + 1;
        assert(input@.subrange(p0 as int, *in_pos as int) =~= input@.subrange(
            p0 as int,
            *in_pos - 1,
        ).push(input@[*in_pos - 1]));
    }
    assert(input@.subrange(p0 as int, *in_pos as int) =~= input@.skip(p0 as int).take(
        *in_pos - p0,
    ));
}

/// The twelve bytes of `b`.
fn bytes12(b: &Vec<u8>) -> (r: [u8; 12])
    requires
        b@.len() == 12,
    ensures
        r@ == b@,
{
    let r = [b[0], b[1], b[2], b[3], b[4], b[5], b[6], b[7], b[8], b[9], b[10], b[11]];
    assert(r@ =~= b@);
    r
}

/// One step of the Stream decoder over `input` from `*in_pos`. `ended`
/// tells, while a Block runs, that the caller's Block coder has reached the
/// end of the Block and with which Unpadded and Uncompressed Sizes; `finish`
/// tells that no input follows `input`. What the step does is `sd_step`.
#[verifier::rlimit(60)]
pub fn stream_decode_step(
    c: &mut StreamDecoder,
    input: &[u8],
    in_pos: &mut usize,
    ended: Option<(u64, u64)>,
    finish: bool,
) -> (step: StreamStep)
    requires
        old(c).wf(),
        *old(in_pos) <= input@.len(),
    ensures
        sd_step(
            old(c)@,
            input@.skip(*old(in_pos) as int),
            ended,
            finish,
            final(c)@,
            step,
            *final(in_pos) - *old(in_pos),
        ),
        *old(in_pos) <= *final(in_pos) <= input@.len(),
        step_continues(step) ==> final(c).wf(),
{
    if c.sequence == SEQ_STREAM_HEADER {
        decode_header(c, input, in_pos)
    } else if c.sequence == SEQ_BLOCK_HEADER {
        decode_block_header(c, input, in_pos)
    } else if c.sequence == SEQ_BLOCK_INIT {
        init_block(c)
    } else if c.sequence == SEQ_BLOCK_RUN {
        match ended {
            None => StreamStep::RunBlock,
            Some((unpadded, uncompressed)) => {
                let ret = lzma_index_hash_append(&mut c.index_hash, unpadded, uncompressed);
                if ret != LZMA_OK {
                    return StreamStep::Done(ret);
                }
                c.buffer = Vec::new();
                c.sequence = SEQ_BLOCK_HEADER;
                StreamStep::Continue
            },
        }
    } else if c.sequence == SEQ_INDEX {
        if *in_pos >= input.len() {
            return StreamStep::Done(LZMA_OK);
        }
        let ret = lzma_index_hash_decode(&mut c.index_hash, input, in_pos);
        if ret == LZMA_STREAM_END {
            c.sequence = SEQ_STREAM_FOOTER;
            StreamStep::Continue
        } else {
            StreamStep::Done(ret)
        }
    } else if c.sequence == SEQ_STREAM_FOOTER {
        decode_footer(c, input, in_pos)
    } else {
        skip_padding(c, input, in_pos, finish)
    }
}

fn decode_header(c: &mut StreamDecoder, input: &[u8], in_pos: &mut usize) -> (step: StreamStep)
    requires
        old(c).wf(),
        old(c)@.sequence == SEQ_STREAM_HEADER,
        *old(in_pos) <= input@.len(),
    ensures
        sd_header_step(
            old(c)@,
            input@.skip(*old(in_pos) as int),
            final(c)@,
            step,
            *final(in_pos) - *old(in_pos),
        ),
        *old(in_pos) <= *final(in_pos) <= input@.len(),
        final(c).wf(),
{
    fill(&mut c.buffer, input, in_pos, STREAM_HEADER_SIZE);
    if c.buffer.len() < STREAM_HEADER_SIZE {
        return StreamStep::Done(LZMA_OK);
    }
    let bytes = bytes12(&c.buffer);
    c.buffer = Vec::new();
    let mut f = c.stream_flags;
    let ret = lzma_stream_header_decode(&mut f, &bytes);
    if ret != LZMA_OK {
        return StreamStep::Done(
            if ret == LZMA_FORMAT_ERROR && !c.first_stream {
                LZMA_DATA_ERROR
            } else {
                ret
            },
        );
    }
    c.stream_flags = f;
    c.first_stream = false;
    c.block.check = f.check;
    c.sequence = SEQ_BLOCK_HEADER;
    if c.flags.tell_no_check && f.check == LZMA_CHECK_NONE {
        return StreamStep::Done(LZMA_NO_CHECK);
    }
    if c.flags.tell_unsupported_check && !lzma_check_is_supported(f.check) {
        return StreamStep::Done(LZMA_UNSUPPORTED_CHECK);
    }
    if c.flags.tell_any_check {
        return StreamStep::Done(LZMA_GET_CHECK);
    }
    StreamStep::Continue
}

fn decode_block_header(c: &mut StreamDecoder, input: &[u8], in_pos: &mut usize) -> (step:
    StreamStep)
    requires
        old(c).wf(),
        old(c)@.sequence == SEQ_BLOCK_HEADER,
        *old(in_pos) <= input@.len(),
    ensures
        sd_block_header_step(
            old(c)@,
            input@.skip(*old(in_pos) as int),
            final(c)@,
            step,
            *final(in_pos) - *old(in_pos),
        ),
        *old(in_pos) <= *final(in_pos) <= input@.len(),
        final(c).wf(),
{
    if *in_pos >= input.len() {
        return StreamStep::Done(LZMA_OK);
    }
    if c.buffer.len() == 0 {
        if input[*in_pos] == 0 {
            c.sequence = SEQ_INDEX;
            return StreamStep::Continue;
        }
        c.block.header_size = (input[*in_pos] as u32 + 1) * 4;
    }
    let need = c.block.header_size as usize;
    fill(&mut c.buffer, input, in_pos, need);
    if c.buffer.len() < need {
        return StreamStep::Done(LZMA_OK);
    }
    c.sequence = SEQ_BLOCK_INIT;
    StreamStep::Continue
}

fn init_block(c: &mut StreamDecoder) -> (step: StreamStep)
    requires
        old(c).wf(),
        old(c)@.sequence == SEQ_BLOCK_INIT,
    ensures
        sd_block_init_step(old(c)@, final(c)@, step),
        final(c).wf(),
{
    let mut b = c.block;
    b.version = 1;
    let ghost b0 = b;
    let ghost m = c@;
    let ret = lzma_block_header_decode(&mut b, c.buffer.as_slice());
    proof {
        crate::block_header::lemma_header_decode_err(b0, m.buffer);
    }
    if ret != LZMA_OK {
        return StreamStep::Done(ret);
    }
    b.ignore_check = c.flags.ignore_check;
    c.block = b;
    c.sequence = SEQ_BLOCK_RUN;
    StreamStep::RunBlock
}

fn decode_footer(c: &mut StreamDecoder, input: &[u8], in_pos: &mut usize) -> (step: StreamStep)
    requires
        old(c).wf(),
        old(c)@.sequence == SEQ_STREAM_FOOTER,
        *old(in_pos) <= input@.len(),
    ensures
        sd_footer_step(
            old(c)@,
            input@.skip(*old(in_pos) as int),
            final(c)@,
            step,
            *final(in_pos) - *old(in_pos),
        ),
        *old(in_pos) <= *final(in_pos) <= input@.len(),
        final(c).wf(),
{
    fill(&mut c.buffer, input, in_pos, STREAM_HEADER_SIZE);
    if c.buffer.len() < STREAM_HEADER_SIZE {
        return StreamStep::Done(LZMA_OK);
    }
    let bytes = bytes12(&c.buffer);
    c.buffer = Vec::new();
    let mut f = StreamFlags { version: 0, backward_size: 0, check: 0 };
    let ret = lzma_stream_footer_decode(&mut f, &bytes);
    if ret != LZMA_OK {
        return StreamStep::Done(
            if ret == LZMA_FORMAT_ERROR {
                LZMA_DATA_ERROR
            } else {
                ret
            },
        );
    }
    if lzma_index_hash_size(&c.index_hash) != f.backward_size {
        return StreamStep::Done(LZMA_DATA_ERROR);
    }
    let ret = lzma_stream_flags_compare(&c.stream_flags, &f);
    if ret != LZMA_OK {
        return StreamStep::Done(ret);
    }
    if !c.flags.concatenated {
        return StreamStep::Done(LZMA_STREAM_END);
    }
    c.sequence = SEQ_STREAM_PADDING;
    c.padding = 0;
    StreamStep::Continue
}

fn skip_padding(c: &mut StreamDecoder, input: &[u8], in_pos: &mut usize, finish: bool) -> (step:
    StreamStep)
    requires
        old(c).wf(),
        old(c)@.sequence == SEQ_STREAM_PADDING,
        *old(in_pos) <= input@.len(),
    ensures
        sd_padding_step(
            old(c)@,
            input@.skip(*old(in_pos) as int),
            finish,
            final(c)@,
            step,
            *final(in_pos) - *old(in_pos),
        ),
        *old(in_pos) <= *final(in_pos) <= input@.len(),
        final(c).wf(),
{
    if *in_pos >= input.len() {
        if !finish {
            return StreamStep::Done(LZMA_OK);
        }
        return StreamStep::Done(
            if c.padding == 0 {
                LZMA_STREAM_END
            } else {
                LZMA_DATA_ERROR
            },
        );
    }
    if input[*in_pos] == 0 {
        *in_pos = *in_pos + 1;
        c.padding = (c.padding + 1) % 4;
        return StreamStep::Continue;
    }
    if c.padding != 0 {
        *in_pos = *in_pos + 1;
        return StreamStep::Done(LZMA_DATA_ERROR);
    }
    c.index_hash = lzma_index_hash_init();
    c.buffer = Vec::new();
    c.sequence = SEQ_STREAM_HEADER;
    StreamStep::Continue
}

} // verus!
