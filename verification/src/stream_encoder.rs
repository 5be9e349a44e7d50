//! The decisions of the single-threaded .xz Stream encoder: writing the
//! Stream Header, a Block Header before each Block, the Index of the Blocks
//! and the Stream Footer, and what each action asks for. The Block data
//! itself is encoded by the caller's Block coder; the encoder is told when a
//! Block has ended and with which sizes.
use vstd::prelude::*;
use crate::block::lzma_block;
use crate::block_header::{
    header_encode_result, header_size_result, lemma_header_frame, lzma_block_header_encode,
    lzma_block_header_size,
};
use crate::filter::Filter;
use crate::index::{append_result, append_sums, lzma_index_append, lzma_index_init, lzma_index_s, lzma_index_size};
use crate::index_encoder::{index_encode, index_field};
use crate::index_size::index_size;
use crate::stream::{LZMA_FINISH, LZMA_RUN};
use crate::stream_decoder::StreamStep;
use crate::stream_flags::{
    backward_size_valid, footer_bytes, header_bytes, lzma_stream_footer_encode, lzma_stream_header_encode,
    StreamFlags,
};
use crate::types::{
    LZMA_CHECK_ID_MAX, LZMA_OK, LZMA_PROG_ERROR, LZMA_STREAM_END, LZMA_VLI_MAX, LZMA_VLI_UNKNOWN,
    UNPADDED_SIZE_MAX,
};
use crate::vli::lemma_vli_size_bounds;

verus! {

/// Writing the Stream Header.
pub const SEQ_STREAM_HEADER: u32 = 0;
/// Between Blocks: a new Block or the Index comes next.
pub const SEQ_BLOCK_INIT: u32 = 1;
/// Writing a Block Header.
pub const SEQ_BLOCK_HEADER: u32 = 2;
/// The Block coder of the caller is running.
pub const SEQ_BLOCK_ENCODE: u32 = 3;
/// Writing the Index.
pub const SEQ_INDEX_ENCODE: u32 = 4;
/// Writing the Stream Footer.
pub const SEQ_STREAM_FOOTER: u32 = 5;

/// The state of a Stream encoder.
pub struct StreamEncoderModel {
    pub sequence: u32,
    /// The bytes of the header, Block Header, Index or footer still to write.
    pub pending: Seq<u8>,
    /// The options of the Blocks: check and filters, and the header of the
    /// current Block.
    pub block: lzma_block,
    /// The Index of the Blocks written so far.
    pub index: lzma_index_s,
    /// The Unpadded Size and Uncompressed Size of each of those Blocks.
    pub records: Seq<(u64, u64)>,
}

/// A single-threaded .xz Stream encoder.
pub struct StreamEncoder {
    sequence: u32,
    buffer: Vec<u8>,
    pos: usize,
    block: lzma_block,
    index: lzma_index_s,
    records: Vec<(u64, u64)>,
}

impl View for StreamEncoder {
    type V = StreamEncoderModel;

    closed spec fn view(&self) -> StreamEncoderModel {
        StreamEncoderModel {
            sequence: self.sequence,
            pending: self.buffer@.skip(self.pos as int),
            block: self.block,
            index: self.index,
            records: self.records@,
        }
    }
}

/// The encoder state `m` is one the encoder can be in.
pub open spec fn se_model_wf(m: StreamEncoderModel) -> bool {
    &&& m.sequence <= SEQ_STREAM_FOOTER
    &&& m.index.wf()
    &&& m.records.len() == m.index.record_count
    &&& 2 * m.records.len() <= m.index.index_list_size
    &&& forall|k: int|
        0 <= k < m.records.len() ==> #[trigger] m.records[k].0 <= LZMA_VLI_MAX && m.records[k].1
            <= LZMA_VLI_MAX
}

impl StreamEncoder {
    /// The encoder is consistent.
    pub closed spec fn wf(&self) -> bool {
        &&& self.pos <= self.buffer@.len()
        &&& se_model_wf(self@)
    }

    /// The options of the Block to encode, after `RunBlock`.
    pub fn block(&self) -> (r: lzma_block)
        ensures
            r == self@.block,
    {
        self.block
    }
}

/// The Stream Flags of a Stream with check `check` and an Index field of
/// `backward_size` bytes.
pub open spec fn flags_with(check: u32, backward_size: u64) -> StreamFlags {
    StreamFlags { version: 0, backward_size, check }
}

/// What a new encoder for the filters `filters` and check `check` is: the
/// Stream Header to write, no Block yet.
pub open spec fn se_initial(m: StreamEncoderModel, filters: [Filter; 5], check: u32) -> bool {
    &&& m.sequence == SEQ_STREAM_HEADER
    &&& m.pending == header_bytes(flags_with(check, 0))
    &&& m.block.version == 0
    &&& m.block.check == check
    &&& m.block.filters == filters
    &&& m.records == Seq::<(u64, u64)>::empty()
    &&& m.index.record_count == 0
    &&& m.index.index_list_size == 0
    &&& m.index.total_size == 0
    &&& m.index.uncompressed_size == 0
}

/// Copying the pending bytes to output that holds `out_len` of `out_size`
/// bytes: what is written and what stays pending.
pub open spec fn se_copy(pending: Seq<u8>, out_len: int, out_size: int) -> (Seq<u8>, Seq<u8>) {
    let k = if pending.len() <= out_size - out_len {
        pending.len() as int
    } else {
        out_size - out_len
    };
    (pending.take(k), pending.skip(k))
}

/// One step of the Stream encoder from state `m`, with output holding
/// `out_len` of `out_size` bytes: it goes to `m2`, asks `step` of the caller
/// and writes `written`. `input_left` tells that the user has input left,
/// `action` is the user's action, and `ended` the sizes of the Block the
/// caller's Block coder has finished.
pub open spec fn se_step(
    m: StreamEncoderModel,
    out_len: int,
    out_size: int,
    input_left: bool,
    action: u32,
    ended: Option<(u64, u64)>,
    m2: StreamEncoderModel,
    step: StreamStep,
    written: Seq<u8>,
) -> bool {
    if out_len >= out_size {
        m2 == m && step == StreamStep::Done(LZMA_OK) && written == Seq::<u8>::empty()
    } else if m.sequence == SEQ_BLOCK_INIT {
        &&& written == Seq::<u8>::empty()
        &&& if !input_left {
            if action != LZMA_FINISH {
                m2 == m && step == StreamStep::Done(
                    if action == LZMA_RUN {
                        LZMA_OK
                    } else {
                        LZMA_STREAM_END
                    },
                )
            } else {
                m2 == StreamEncoderModel {
                    sequence: SEQ_INDEX_ENCODE,
                    pending: index_field(m.records),
                    ..m
                } && step == StreamStep::Continue
            }
        } else {
            let b = lzma_block {
                compressed_size: LZMA_VLI_UNKNOWN,
                uncompressed_size: LZMA_VLI_UNKNOWN,
                ..m.block
            };
            match header_size_result(b) {
                Err(e) => m2 == StreamEncoderModel { block: b, ..m } && step == StreamStep::Done(e),
                Ok(hs) => {
                    let b2 = lzma_block { header_size: hs, ..b };
                    match header_encode_result(b2, 1024) {
                        Err(e) => m2 == StreamEncoderModel { block: b2, ..m } && step
                            == StreamStep::Done(LZMA_PROG_ERROR),
                        Ok(h) => m2 == StreamEncoderModel {
                            sequence: SEQ_BLOCK_HEADER,
                            pending: h,
                            block: b2,
                            ..m
                        } && step == StreamStep::Continue,
                    }
                },
            }
        }
    } else if m.sequence == SEQ_BLOCK_ENCODE {
        &&& written == Seq::<u8>::empty()
        &&& match ended {
            None => m2 == m && step == StreamStep::RunBlock,
            Some((unpadded, uncompressed)) => {
                let r = append_result(m.index, unpadded, uncompressed);
                if r != LZMA_OK {
                    m2 == m && step == StreamStep::Done(r)
                } else {
                    &&& m2 == StreamEncoderModel {
                        sequence: SEQ_BLOCK_INIT,
                        index: m2.index,
                        records: m.records.push((unpadded, uncompressed)),
                        ..m
                    }
                    &&& append_sums(m.index, m2.index, unpadded, uncompressed)
                    &&& step == StreamStep::Continue
                }
            },
        }
    } else {
        let (w, rest) = se_copy(m.pending, out_len, out_size);
        &&& written == w
        &&& if rest.len() > 0 {
            m2 == StreamEncoderModel { pending: rest, ..m } && step == StreamStep::Done(LZMA_OK)
        } else if m.sequence == SEQ_STREAM_FOOTER {
            m2 == StreamEncoderModel { pending: rest, ..m } && step == StreamStep::Done(
                LZMA_STREAM_END,
            )
        } else if m.sequence == SEQ_INDEX_ENCODE {
            let f = flags_with(
                m.block.check,
                index_size(m.index.record_count, m.index.index_list_size) as u64,
            );
            if backward_size_valid(f) && f.check <= LZMA_CHECK_ID_MAX {
                m2 == StreamEncoderModel {
                    sequence: SEQ_STREAM_FOOTER,
                    pending: footer_bytes(f),
                    ..m
                } && step == StreamStep::Continue
            } else {
                m2 == StreamEncoderModel { pending: rest, ..m } && step == StreamStep::Done(
                    LZMA_PROG_ERROR,
                )
            }
        } else {
            m2 == StreamEncoderModel { sequence: (m.sequence + 1) as u32, pending: rest, ..m }
                && step == StreamStep::Continue
        }
    }
}

/// Makes a Stream encoder that writes Blocks with the filters `filters` and
/// the check `check`: `LZMA_PROG_ERROR` for a check ID out of range,
/// otherwise an encoder with the Stream Header to write.
pub fn lzma_stream_encoder_init(filters: [Filter; 5], check: u32) -> (r: Result<StreamEncoder, u32>)
    ensures
        r is Err <==> check > LZMA_CHECK_ID_MAX,
        r matches Err(e) ==> e == LZMA_PROG_ERROR,
        r matches Ok(c) ==> c.wf() && se_initial(c@, filters, check),
{
    let flags = StreamFlags { version: 0, backward_size: 0, check };
    let mut header = [0u8; 12];
    let ret = lzma_stream_header_encode(&flags, &mut header);
    if ret != LZMA_OK {
        return Err(ret);
    }
    let mut buffer: Vec<u8> = Vec::new();
    let mut k: usize = 0;
    while k < 12
        invariant
            k <= 12,
            buffer@ == header@.take(k as int),
        decreases 12 - k,
    {
        buffer.push(header[k]);
        k = k + 1;
        assert(buffer@ =~= header@.take(k as int));
    }
    assert(buffer@.skip(0) =~= header@);
    let block = lzma_block {
        version: 0,
        header_size: 0,
        check,
        compressed_size: LZMA_VLI_UNKNOWN,
        uncompressed_size: LZMA_VLI_UNKNOWN,
        filters,
        ignore_check: false,
        raw_check: [0u8; 64],
    };
    Ok(
        StreamEncoder {
            sequence: SEQ_STREAM_HEADER,
            buffer,
            pos: 0,
            block,
            index: lzma_index_init(),
            records: Vec::new(),
        },
    )
}

/// Changes the filters of the Blocks to `filters`. Before a Block has begun
/// the next Blocks take them and `LZMA_OK` is returned; while a Block is
/// being written its Block coder is the one to change them, which the
/// returned `RunBlock` asks of the caller; after the last Block it is too
/// late: `LZMA_PROG_ERROR`.
pub fn stream_encoder_update(c: &mut StreamEncoder, filters: [Filter; 5]) -> (step: StreamStep)
    requires
        old(c).wf(),
    ensures
        final(c).wf(),
        old(c)@.sequence <= SEQ_BLOCK_INIT ==> step == StreamStep::Done(LZMA_OK) && final(c)@
            == (StreamEncoderModel {
            block: lzma_block { filters, ..old(c)@.block },
            ..old(c)@
        }),
        SEQ_BLOCK_INIT < old(c)@.sequence <= SEQ_BLOCK_ENCODE ==> step == StreamStep::RunBlock
            && final(c)@ == (StreamEncoderModel {
            block: lzma_block { filters, ..old(c)@.block },
            ..old(c)@
        }),
        old(c)@.sequence > SEQ_BLOCK_ENCODE ==> step == StreamStep::Done(LZMA_PROG_ERROR)
            && final(c)@ == old(c)@,
{
    if c.sequence > SEQ_BLOCK_ENCODE {
        return StreamStep::Done(LZMA_PROG_ERROR);
    }
    c.block.filters = filters;
    if c.sequence <= SEQ_BLOCK_INIT {
        StreamStep::Done(LZMA_OK)
    } else {
        StreamStep::RunBlock
    }
}

/// A vector of `n` zero bytes.
fn zeros_vec(n: usize) -> (r: Vec<u8>)
    ensures
        r@.len() == n,
{
    let mut v: Vec<u8> = Vec::new();
    while v.len() < n
        invariant
            v@.len() <= n,
        decreases n - v@.len(),
    {
        v.push(0u8);
    }
    v
}

/// A Block Header that encodes has the length its header size says.
proof fn lemma_header_len(b: lzma_block, out_len: int)
    requires
        header_encode_result(b, out_len) is Ok,
    ensures
        header_encode_result(b, out_len)->Ok_0.len() == b.header_size,
{
    lemma_header_frame(b, out_len);
}

/// One step of the Stream encoder, writing to the end of `out`, which may
/// hold up to `out_size` bytes. What the step does is `se_step`.
#[verifier::rlimit(60)]
pub fn stream_encode_step(
    c: &mut StreamEncoder,
    out: &mut Vec<u8>,
    out_size: usize,
    input_left: bool,
    action: u32,
    ended: Option<(u64, u64)>,
) -> (step: StreamStep)
    requires
        old(c).wf(),
    ensures
        final(out)@.len() >= old(out)@.len(),
        se_step(
            old(c)@,
            old(out)@.len() as int,
            out_size as int,
            input_left,
            action,
            ended,
            final(c)@,
            step,
            final(out)@.skip(old(out)@.len() as int),
        ),
        final(c).wf(),
{
    let ghost out0 = out@;
    if out.len() >= out_size {
        assert(out@.skip(out0.len() as int) =~= Seq::<u8>::empty());
        return StreamStep::Done(LZMA_OK);
    }
    if c.sequence == SEQ_BLOCK_INIT {
        assert(out@.skip(out0.len() as int) =~= Seq::<u8>::empty());
        if !input_left {
            if action != LZMA_FINISH {
                return StreamStep::Done(
                    if action == LZMA_RUN {
                        LZMA_OK
                    } else {
                        LZMA_STREAM_END
                    },
                );
            }
            proof {
                lemma_records_bound(c@);
            }
            let idx = index_encode(c.records.as_slice());
            c.buffer = idx;
            c.pos = 0;
            assert(c.buffer@.skip(0) =~= c.buffer@);
            c.sequence = SEQ_INDEX_ENCODE;
            return StreamStep::Continue;
        }
        c.block.compressed_size = LZMA_VLI_UNKNOWN;
        c.block.uncompressed_size = LZMA_VLI_UNKNOWN;
        proof {
            crate::block_header::lemma_header_size_err(c.block);
        }
        let ret = lzma_block_header_size(&mut c.block);
        if ret != LZMA_OK {
            return StreamStep::Done(ret);
        }
        let mut buf = zeros_vec(1024);
        let ghost b2 = c.block;
        proof {
            crate::block_header::lemma_header_encode_err(b2, 1024);
        }
        if lzma_block_header_encode(&c.block, buf.as_mut_slice()) != LZMA_OK {
            return StreamStep::Done(LZMA_PROG_ERROR);
        }
        proof {
            lemma_header_len(b2, 1024);
        }
        buf.truncate(c.block.header_size as usize);
        assert(buf@ =~= header_encode_result(b2, 1024)->Ok_0);
        c.buffer = buf;
        c.pos = 0;
        assert(c.buffer@.skip(0) =~= c.buffer@);
        c.sequence = SEQ_BLOCK_HEADER;
        return StreamStep::Continue;
    }
    if c.sequence == SEQ_BLOCK_ENCODE {
        assert(out@.skip(out0.len() as int) =~= Seq::<u8>::empty());
        match ended {
            None => {
                return StreamStep::RunBlock;
            },
            Some((unpadded, uncompressed)) => {
                let ghost m = c@;
                let ret = lzma_index_append(&mut c.index, unpadded, uncompressed);
                if ret != LZMA_OK {
                    return StreamStep::Done(ret);
                }
                proof {
                    assert(unpadded <= UNPADDED_SIZE_MAX && uncompressed <= LZMA_VLI_MAX);
                    lemma_vli_size_bounds(unpadded);
                    lemma_vli_size_bounds(uncompressed);
                }
                c.records.push((unpadded, uncompressed));
                c.sequence = SEQ_BLOCK_INIT;
                assert(c@.records =~= m.records.push((unpadded, uncompressed)));
                return StreamStep::Continue;
            },
        }
    }
    let ghost pend = c@.pending;
    let p0 = c.pos;
    let mut p = c.pos;
    let n = c.buffer.len();
    while p < n && out.len() < out_size
        invariant
            n == c.buffer@.len(),
            p0 <= p <= n,
            pend == c.buffer@.skip(p0 as int),
            out@.len() - out0.len() == p - p0,
            out@ == out0 + c.buffer@.subrange(p0 as int, p as int),
            out0.len() < out_size,
            out@.len() <= out_size,
        decreases n - p,
    {
        out.push(c.buffer[p]);
        p = p + 1;
        assert(c.buffer@.subrange(p0 as int, p as int) =~= c.buffer@.subrange(
            p0 as int,
            p - 1,
        ).push(c.buffer@[p - 1]));
    }
    c.pos = p;
    let ghost k = p - p0;
    assert(out@.skip(out0.len() as int) =~= pend.take(k));
    assert(c@.pending =~= pend.skip(k));
    if c.pos < c.buffer.len() {
        return StreamStep::Done(LZMA_OK);
    }
    if c.sequence == SEQ_STREAM_FOOTER {
        return StreamStep::Done(LZMA_STREAM_END);
    }
    if c.sequence == SEQ_INDEX_ENCODE {
        let size = lzma_index_size(&c.index);
        let f = StreamFlags { version: 0, backward_size: size, check: c.block.check };
        let mut footer = [0u8; 12];
        if lzma_stream_footer_encode(&f, &mut footer) != LZMA_OK {
            return StreamStep::Done(LZMA_PROG_ERROR);
        }
        let mut buffer: Vec<u8> = Vec::new();
        let mut j: usize = 0;
        while j < 12
            invariant
                j <= 12,
                buffer@ == footer@.take(j as int),
            decreases 12 - j,
        {
            buffer.push(footer[j]);
            j = j + 1;
            assert(buffer@ =~= footer@.take(j as int));
        }
        assert(buffer@.skip(0) =~= footer@);
        c.buffer = buffer;
        c.pos = 0;
        c.sequence = SEQ_STREAM_FOOTER;
        return StreamStep::Continue;
    }
    c.sequence = c.sequence + 1;
    StreamStep::Continue
}

/// The Blocks of a consistent encoder can be written as an Index.
proof fn lemma_records_bound(m: StreamEncoderModel)
    requires
        se_model_wf(m),
    ensures
        m.records.len() <= LZMA_VLI_MAX,
{
    crate::index_size::lemma_index_size_covers_list(m.index.record_count, m.index.index_list_size);
}

} // verus!
