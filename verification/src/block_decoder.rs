//! Decoding a Block: the bookkeeping around the filter chain's decoder.
//!
//! The filter chain's decoder itself (LZMA2 and the other filters) is run by
//! the caller; this coder decides how much it may read and write, counts
//! what it did, feeds the produced data to the integrity check, and then
//! reads and verifies the Block Padding and the stored check. A caller:
//! while `sequence == SEQ_CODE`, asks `block_decode_limits`, runs the
//! filter chain's decoder within them and reports with `block_decode_code`;
//! once that returns `None`, it finishes with `block_decode_tail`.
use vstd::prelude::*;
use crate::block::{lzma_block, unpadded_size_spec, lzma_block_unpadded_size};
use crate::check::{
    check_size_spec, check_supported_spec, check_value, lzma_check_finish, lzma_check_init,
    lzma_check_is_supported, lzma_check_size, lzma_check_update, LzmaCheckState,
};
use crate::sha256::sha256_len_limit;
use crate::common::lzma_bufcpy;
use crate::types::{
    LZMA_CHECK_NONE, LZMA_DATA_ERROR, LZMA_OK, LZMA_PROG_ERROR, LZMA_STREAM_END, LZMA_VLI_MAX,
    LZMA_VLI_UNKNOWN,
};

verus! {

/// The filter chain's decoder is running.
pub const SEQ_CODE: u32 = 0;

/// The Block Padding is being read.
pub const SEQ_PADDING: u32 = 1;

/// The stored check is being read.
pub const SEQ_CHECK: u32 = 2;

/// `size` agrees with `reference`, which may be unknown.
pub open spec fn size_valid(size: u64, reference: u64) -> bool {
    reference == LZMA_VLI_UNKNOWN || reference == size
}

/// Number of Block Padding bytes after `compressed_size` bytes of data.
pub open spec fn padding_needed(compressed_size: u64) -> int {
    (4 - compressed_size % 4) % 4
}

/// The bytes of `s` from `from` on, `n` of them, are all zero.
pub open spec fn zero_run(s: Seq<u8>, from: int, n: int) -> bool {
    forall|j: int| from <= j < from + n ==> s[j] == 0
}

/// The larger bound on the compressed size when the Block does not state it:
/// the largest multiple of four that is a valid size, less the header and
/// the check.
pub open spec fn unknown_compressed_limit(header_size: u32, check: u32) -> u64 {
    ((LZMA_VLI_MAX - 3) - header_size - check_size_spec(check)) as u64
}

/// State of the decoding of one Block.
#[allow(non_camel_case_types)]
pub struct lzma_block_coder {
    /// `SEQ_CODE`, `SEQ_PADDING` or `SEQ_CHECK`.
    pub sequence: u32,
    /// Bytes of Compressed Data (and Block Padding) read so far.
    pub compressed_size: u64,
    /// Bytes of uncompressed data produced so far.
    pub uncompressed_size: u64,
    /// Most Compressed Data the Block may have.
    pub compressed_limit: u64,
    /// Most uncompressed data the Block may have.
    pub uncompressed_limit: u64,
    /// Bytes of the stored check read so far.
    pub check_pos: usize,
    /// The check is not verified.
    pub ignore_check: bool,
    /// The check over the data produced so far.
    pub check: LzmaCheckState,
    /// The check of the data, once the data has ended.
    pub computed: Vec<u8>,
    /// Check ID of the Block.
    pub check_id: u32,
    /// The compressed size the Block stated (or `LZMA_VLI_UNKNOWN`).
    pub expected_compressed: u64,
    /// The uncompressed size the Block stated (or `LZMA_VLI_UNKNOWN`).
    pub expected_uncompressed: u64,
    /// The uncompressed data produced so far.
    pub data: Ghost<Seq<u8>>,
}

impl lzma_block_coder {
    /// The uncompressed data produced so far.
    pub closed spec fn data(&self) -> Seq<u8> {
        self.data@
    }

    /// The state is one the decoding can be in.
    pub closed spec fn wf(&self) -> bool {
        &&& self.sequence <= SEQ_CHECK
        &&& self.check_id <= 15
        &&& self.compressed_limit <= LZMA_VLI_MAX
        &&& self.compressed_size <= self.compressed_limit + padding_needed(self.compressed_limit)
        &&& self.sequence == SEQ_CODE ==> self.compressed_size <= self.compressed_limit
        &&& self.uncompressed_size <= self.uncompressed_limit <= LZMA_VLI_MAX
        &&& self.uncompressed_size == self.data@.len()
        &&& self.data@.len() < sha256_len_limit()
        &&& (!self.ignore_check && self.sequence != SEQ_CHECK) ==> {
            &&& self.check.wf()
            &&& self.check.check_id() == self.check_id
            &&& self.check@ == self.data@
        }
        &&& self.check_pos <= check_size_spec(self.check_id)
        &&& self.sequence != SEQ_CHECK ==> self.check_pos == 0
        &&& (self.sequence == SEQ_CHECK && !self.ignore_check) ==> self.computed@ == check_value(
            self.check_id,
            self.data@,
        )
    }
}

/// Starts decoding the Block described by `block`, whose header has been
/// decoded: `LZMA_PROG_ERROR` if its fields are invalid (no Unpadded Size)
/// or its uncompressed size is neither valid nor unknown.
pub fn lzma_block_decoder_init(block: &lzma_block) -> (r: Result<lzma_block_coder, u32>)
    ensures
        r is Err <==> (unpadded_size_spec(*block) == 0 || !(block.uncompressed_size
            <= LZMA_VLI_MAX || block.uncompressed_size == LZMA_VLI_UNKNOWN)),
        r matches Err(e) ==> e == LZMA_PROG_ERROR,
        r matches Ok(c) ==> {
            &&& c.wf()
            &&& c.sequence == SEQ_CODE
            &&& c.compressed_size == 0
            &&& c.uncompressed_size == 0
            &&& c.data() == Seq::<u8>::empty()
            &&& c.check_pos == 0
            &&& c.check_id == block.check
            &&& c.expected_compressed == block.compressed_size
            &&& c.expected_uncompressed == block.uncompressed_size
            &&& c.compressed_limit == (if block.compressed_size == LZMA_VLI_UNKNOWN {
                unknown_compressed_limit(block.header_size, block.check)
            } else {
                block.compressed_size
            })
            &&& c.uncompressed_limit == (if block.uncompressed_size == LZMA_VLI_UNKNOWN {
                LZMA_VLI_MAX
            } else {
                block.uncompressed_size
            })
            &&& c.ignore_check == (block.version >= 1 && block.ignore_check)
        },
{
    if lzma_block_unpadded_size(block) == 0 || !(block.uncompressed_size <= LZMA_VLI_MAX
        || block.uncompressed_size == LZMA_VLI_UNKNOWN) {
        return Err(LZMA_PROG_ERROR);
    }
    let compressed_limit = if block.compressed_size == LZMA_VLI_UNKNOWN {
        (LZMA_VLI_MAX - 3) - block.header_size as u64 - lzma_check_size(block.check) as u64
    } else {
        block.compressed_size
    };
    let uncompressed_limit = if block.uncompressed_size == LZMA_VLI_UNKNOWN {
        LZMA_VLI_MAX
    } else {
        block.uncompressed_size
    };
    Ok(
        lzma_block_coder {
            sequence: SEQ_CODE,
            compressed_size: 0,
            uncompressed_size: 0,
            compressed_limit,
            uncompressed_limit,
            check_pos: 0,
            ignore_check: block.version >= 1 && block.ignore_check,
            check: lzma_check_init(block.check),
            computed: Vec::new(),
            check_id: block.check,
            expected_compressed: block.compressed_size,
            expected_uncompressed: block.uncompressed_size,
            data: Ghost(Seq::empty()),
        },
    )
}

impl lzma_block_coder {
    /// How much the filter chain's decoder may read and write in this call,
    /// given `in_avail` bytes of input and `out_avail` bytes of room: each is
    /// cut to what the Block may still have.
    pub fn block_decode_limits(&self, in_avail: usize, out_avail: usize) -> (r: (usize, usize))
        requires
            self.wf(),
            self.sequence == SEQ_CODE,
        ensures
            r.0 == (if in_avail < self.compressed_limit - self.compressed_size {
                in_avail as int
            } else {
                self.compressed_limit - self.compressed_size
            }),
            r.1 == (if out_avail < self.uncompressed_limit - self.uncompressed_size {
                out_avail as int
            } else {
                self.uncompressed_limit - self.uncompressed_size
            }),
    {
        let in_room = self.compressed_limit - self.compressed_size;
        let out_room = self.uncompressed_limit - self.uncompressed_size;
        let in_stop = if (in_avail as u64) < in_room {
            in_avail
        } else {
            in_room as usize
        };
        let out_stop = if (out_avail as u64) < out_room {
            out_avail
        } else {
            out_room as usize
        };
        (in_stop, out_stop)
    }

    /// Takes in what one run of the filter chain's decoder did: it read
    /// `in_used` bytes, produced `out_chunk` and returned `ret`; `in_left` and
    /// `out_left` tell whether input and room were left over in the caller's
    /// buffers. The sizes grow by what was used and the data by `out_chunk`.
    /// Returns `LZMA_DATA_ERROR` when the decoder, returning `LZMA_OK`, has
    /// reached both stated sizes, or one of them while the other side still
    /// had bytes; otherwise the data goes to the check and a `ret` other than
    /// `LZMA_STREAM_END` is returned as it is. At `LZMA_STREAM_END` the sizes
    /// must agree with those the Block stated (`LZMA_DATA_ERROR` if not); they
    /// are written to `block`, the Block Padding comes next, and `None` is
    /// returned.
    pub fn block_decode_code(
        &mut self,
        block: &mut lzma_block,
        out_chunk: &[u8],
        in_used: usize,
        ret: u32,
        in_left: bool,
        out_left: bool,
    ) -> (r: Option<u32>)
        requires
            old(self).wf(),
            old(self).sequence == SEQ_CODE,
            in_used <= old(self).compressed_limit - old(self).compressed_size,
            out_chunk@.len() <= old(self).uncompressed_limit - old(self).uncompressed_size,
            old(self).uncompressed_size + out_chunk@.len() < sha256_len_limit(),
        ensures
            ({
                let o = *old(self);
                let c = o.compressed_size + in_used;
                let u = o.uncompressed_size + out_chunk@.len();
                let comp_done = c == o.expected_compressed;
                let uncomp_done = u == o.expected_uncompressed;
                &&& final(self).compressed_size == c
                &&& final(self).uncompressed_size == u
                &&& final(self).data() == o.data() + out_chunk@
                &&& final(self).compressed_limit == o.compressed_limit
                &&& final(self).uncompressed_limit == o.uncompressed_limit
                &&& final(self).check_id == o.check_id
                &&& final(self).ignore_check == o.ignore_check
                &&& final(self).expected_compressed == o.expected_compressed
                &&& final(self).expected_uncompressed == o.expected_uncompressed
                &&& if ret == LZMA_OK && ((comp_done && uncomp_done) || (comp_done && out_left)
                    || (uncomp_done && in_left)) {
                    r == Some(LZMA_DATA_ERROR) && *final(block) == *old(block)
                } else if ret != LZMA_STREAM_END {
                    &&& r == Some(ret)
                    &&& *final(block) == *old(block)
                    &&& final(self).wf()
                    &&& final(self).sequence == SEQ_CODE
                } else if !size_valid(c as u64, o.expected_compressed) || !size_valid(
                    u as u64,
                    o.expected_uncompressed,
                ) {
                    r == Some(LZMA_DATA_ERROR) && *final(block) == *old(block)
                } else {
                    &&& r is None
                    &&& *final(block) == (lzma_block {
                        compressed_size: c as u64,
                        uncompressed_size: u as u64,
                        ..*old(block)
                    })
                    &&& final(self).wf()
                    &&& final(self).sequence == SEQ_PADDING
                }
            }),
    {
        let ghost d = self.data@ + out_chunk@;
        self.compressed_size = self.compressed_size + in_used as u64;
        self.uncompressed_size = self.uncompressed_size + out_chunk.len() as u64;
        self.data = Ghost(d);
        if ret == LZMA_OK {
            let comp_done = self.compressed_size == self.expected_compressed;
            let uncomp_done = self.uncompressed_size == self.expected_uncompressed;
            if comp_done && uncomp_done {
                return Some(LZMA_DATA_ERROR);
            }
            if comp_done && out_left {
                return Some(LZMA_DATA_ERROR);
            }
            if uncomp_done && in_left {
                return Some(LZMA_DATA_ERROR);
            }
        }
        if !self.ignore_check && out_chunk.len() > 0 {
            lzma_check_update(&mut self.check, self.check_id, out_chunk);
        }
        if !self.ignore_check {
            assert(self.check@ =~= d);
        }
        if ret != LZMA_STREAM_END {
            return Some(ret);
        }
        if !(self.expected_compressed == LZMA_VLI_UNKNOWN || self.expected_compressed
            == self.compressed_size) || !(self.expected_uncompressed == LZMA_VLI_UNKNOWN
            || self.expected_uncompressed == self.uncompressed_size) {
            return Some(LZMA_DATA_ERROR);
        }
        block.compressed_size = self.compressed_size;
        block.uncompressed_size = self.uncompressed_size;
        self.sequence = SEQ_PADDING;
        None
    }
}

/// Reading the stored check from input position `p` with `cp` of its bytes
/// already in `raw0`: as many bytes as both the input and the check have
/// left go into the check field (giving `raw1`) and the input advances to
/// `p2`. With the field still incomplete the result is `LZMA_OK`; else it
/// is `LZMA_DATA_ERROR` when the check is verified (not ignored, and one
/// this library calculates) and differs from the check of `data`, and
/// `LZMA_STREAM_END` otherwise.
pub open spec fn check_read(
    check_id: u32,
    ignore: bool,
    data: Seq<u8>,
    cp: int,
    raw0: Seq<u8>,
    raw1: Seq<u8>,
    input: Seq<u8>,
    p: int,
    p2: int,
    r: u32,
) -> bool {
    let size = check_size_spec(check_id) as int;
    let n = if input.len() - p < size - cp {
        input.len() - p
    } else {
        size - cp
    };
    &&& p2 == p + n
    &&& raw1 == raw0.take(cp) + input.subrange(p, p + n) + raw0.skip(cp + n)
    &&& r == if cp + n < size {
        LZMA_OK
    } else if !ignore && check_supported_spec(check_id) && raw1.take(size) != check_value(
        check_id,
        data,
    ) {
        LZMA_DATA_ERROR
    } else {
        LZMA_STREAM_END
    }
}

impl lzma_block_coder {
    /// Reads the Block Padding and the stored check, from `input` at
    /// `*in_pos`, once the filter chain's decoder has ended. The padding
    /// bytes must be zero (`LZMA_DATA_ERROR` at the first that is not, which
    /// is consumed); without enough input the result is `LZMA_OK`. With no
    /// check the Block then ends (`LZMA_STREAM_END`); otherwise the check is
    /// read into `block.raw_check` as `check_read` says.
    pub fn block_decode_tail(&mut self, block: &mut lzma_block, input: &[u8], in_pos: &mut usize) -> (r: u32)
        requires
            old(self).wf(),
            old(self).sequence == SEQ_PADDING || old(self).sequence == SEQ_CHECK,
            *old(in_pos) <= input@.len(),
        ensures
            ({
                let o = *old(self);
                let p = *old(in_pos) as int;
                let len = input@.len() as int;
                let k = padding_needed(o.compressed_size);
                let m = if k < len - p {
                    k
                } else {
                    len - p
                };
                &&& if o.sequence == SEQ_CHECK {
                    &&& check_read(
                        o.check_id,
                        o.ignore_check,
                        o.data(),
                        o.check_pos as int,
                        old(block).raw_check@,
                        final(block).raw_check@,
                        input@,
                        p,
                        *final(in_pos) as int,
                        r,
                    )
                    &&& final(self).check_pos == o.check_pos + (*final(in_pos) - p)
                    &&& final(self).compressed_size == o.compressed_size
                    &&& final(self).sequence == SEQ_CHECK
                } else if !zero_run(input@, p, m) {
                    &&& r == LZMA_DATA_ERROR
                    &&& exists|q: int|
                        p <= q < p + m && zero_run(input@, p, q - p) && input@[q] != 0
                            && *final(in_pos) == q + 1
                    &&& final(block).raw_check == old(block).raw_check
                } else if len - p < k {
                    &&& r == LZMA_OK
                    &&& *final(in_pos) == len
                    &&& final(self).compressed_size == o.compressed_size + (len - p)
                    &&& final(self).sequence == SEQ_PADDING
                    &&& final(block).raw_check == old(block).raw_check
                } else if o.check_id == LZMA_CHECK_NONE {
                    &&& r == LZMA_STREAM_END
                    &&& *final(in_pos) == p + k
                    &&& final(self).compressed_size == o.compressed_size + k
                    &&& final(block).raw_check == old(block).raw_check
                } else {
                    &&& check_read(
                        o.check_id,
                        o.ignore_check,
                        o.data(),
                        0,
                        old(block).raw_check@,
                        final(block).raw_check@,
                        input@,
                        p + k,
                        *final(in_pos) as int,
                        r,
                    )
                    &&& final(self).check_pos == *final(in_pos) - (p + k)
                    &&& final(self).compressed_size == o.compressed_size + k
                    &&& final(self).sequence == SEQ_CHECK
                }
                &&& r == LZMA_OK ==> final(self).wf()
                &&& final(self).data() == o.data()
                &&& final(self).check_id == o.check_id
                &&& final(self).ignore_check == o.ignore_check
                &&& final(self).expected_compressed == o.expected_compressed
                &&& final(self).expected_uncompressed == o.expected_uncompressed
                &&& final(self).compressed_limit == o.compressed_limit
                &&& final(self).uncompressed_size == o.uncompressed_size
                &&& final(self).uncompressed_limit == o.uncompressed_limit
                &&& *final(block) == (lzma_block { raw_check: final(block).raw_check, ..*old(block) })
            }),
    {
        let ghost o = *self;
        let ghost p = *in_pos as int;
        let ghost k = padding_needed(o.compressed_size);
        if self.sequence != SEQ_CHECK {
            let ghost m = if k < input@.len() - p { k } else { input@.len() - p };
            while self.compressed_size % 4 != 0
                invariant
                    o == *old(self),
                    p == *old(in_pos),
                    *block == *old(block),
                    o.wf(),
                    o.sequence == SEQ_PADDING,
                    k == padding_needed(o.compressed_size),
                    0 <= k < 4,
                    (o.compressed_size + k) % 4 == 0,
                    m == (if k < input@.len() - p { k } else { input@.len() - p }),
                    p <= *in_pos <= input@.len(),
                    *in_pos - p == self.compressed_size - o.compressed_size,
                    *in_pos - p <= k,
                    zero_run(input@, p, *in_pos - p),
                    *self == (lzma_block_coder { compressed_size: self.compressed_size, ..o }),
                decreases k - (*in_pos - p),
            {
                if *in_pos >= input.len() {
                    assert(zero_run(input@, p, m));
                    return LZMA_OK;
                }
                self.compressed_size = self.compressed_size + 1;
                let byte = input[*in_pos];
                *in_pos = *in_pos + 1;
                if byte != 0 {
                    assert(input@[(*in_pos - 1) as int] != 0);
                    assert(!zero_run(input@, p, m));
                    return LZMA_DATA_ERROR;
                }
            }
            assert(*in_pos - p == k);
            if self.check_id == LZMA_CHECK_NONE {
                return LZMA_STREAM_END;
            }
            if !self.ignore_check {
                self.computed = lzma_check_finish(&mut self.check, self.check_id);
            }
            self.sequence = SEQ_CHECK;
        }
        let size = lzma_check_size(self.check_id) as usize;
        lzma_bufcpy(input, in_pos, input.len(), &mut block.raw_check, &mut self.check_pos, size);
        if self.check_pos < size {
            return LZMA_OK;
        }
        if !self.ignore_check && lzma_check_is_supported(self.check_id) {
            let mut same = self.computed.len() == size;
            let mut i: usize = 0;
            while same && i < size
                invariant
                    size == check_size_spec(self.check_id),
                    size <= 64,
                    block.raw_check@.len() == 64,
                    i <= size,
                    same ==> self.computed@.len() == size,
                    same ==> forall|j: int| 0 <= j < i ==> block.raw_check@[j] == self.computed@[j],
                    !same ==> block.raw_check@.take(size as int) != self.computed@,
                decreases (size - i) * 2 + (if same { 1int } else { 0int }),
            {
                if block.raw_check[i] != self.computed[i] {
                    assert(block.raw_check@.take(size as int)[i as int] != self.computed@[i as int]);
                    same = false;
                } else {
                    i = i + 1;
                }
            }
            if same {
                assert(block.raw_check@.take(size as int) =~= self.computed@);
            }
            if !same {
                return LZMA_DATA_ERROR;
            }
        }
        LZMA_STREAM_END
    }
}

} // verus!
