//! Decoding an Index field from input that arrives in pieces.
use vstd::prelude::*;
use crate::crc::{crc32, crc32_of, law_crc32_chunked};
use crate::index::{
    lzma_index_append, lzma_index_init, lzma_index_memusage, lzma_index_padding_size,
    lzma_index_prealloc, lzma_index_s, memusage_spec,
};
use crate::index_decoder::{
    effective_memlimit, index_decode_result, index_holds, list_of_pairs, padding_zero, pairs_append_ok,
    records_of_pairs, records_read, vli_field,
};
use crate::index_hash::{padding_of, vli_acc};
use crate::index_size::{index_size, index_size_unpadded};
use crate::types::{
    ceil4, le32_bytes, LZMA_BACKWARD_SIZE_MAX, LZMA_DATA_ERROR, LZMA_MEMLIMIT_ERROR, LZMA_OK, LZMA_PROG_ERROR, LZMA_STREAM_END, LZMA_VLI_MAX,
    UNPADDED_SIZE_MAX, UNPADDED_SIZE_MIN,
};
use crate::vli::{
    lemma_vli_run_bound, lemma_vli_run_concat, lemma_vli_run_used, lzma_vli_decode, vli_run,
    vli_run_after, vli_size_spec, VliRun,
};

verus! {

/// Expecting the Index Indicator.
pub const SEQ_INDICATOR: u32 = 0;
/// Decoding the Number of Records.
pub const SEQ_COUNT: u32 = 1;
/// Decoding an Unpadded Size.
pub const SEQ_UNPADDED: u32 = 3;
/// Decoding an Uncompressed Size.
pub const SEQ_UNCOMPRESSED: u32 = 4;
/// About to check the Index Padding.
pub const SEQ_PADDING_INIT: u32 = 5;
/// Checking the Index Padding.
pub const SEQ_PADDING: u32 = 6;
/// Checking the CRC32 of the Index.
pub const SEQ_CRC32: u32 = 7;

/// The state of an Index decoder.
pub struct IndexCoderModel {
    pub sequence: u32,
    /// The memory limit, at least one byte.
    pub memlimit: u64,
    /// The (Unpadded Size, uncompressed size) of the Blocks read so far.
    pub pairs: Seq<(u64, u64)>,
    /// The Number of Records while it is decoded, then the Records left.
    pub count: u64,
    pub unpadded_size: u64,
    pub uncompressed_size: u64,
    pub pos: nat,
    /// The bytes of the Index read before its CRC32 field.
    pub crc_input: Seq<u8>,
}

/// `r` with `d` more bytes counted as used.
pub open spec fn id_after(r: (IndexCoderModel, u32, nat), d: nat) -> (IndexCoderModel, u32, nat) {
    (r.0, r.1, r.2 + d)
}

/// Runs the Index decoder from `st` over the bytes of `s`: the state it ends
/// in, the value it returns and how many bytes it reads. The state is
/// meaningful when the value is `LZMA_OK` or `LZMA_STREAM_END`, and for
/// `LZMA_MEMLIMIT_ERROR`, where it holds the Number of Records.
pub open spec fn id_run(st: IndexCoderModel, s: Seq<u8>) -> (IndexCoderModel, u32, nat)
    decreases s.len(), 7 - st.sequence,
{
    if st.sequence > SEQ_CRC32 {
        (st, LZMA_PROG_ERROR, 0)
    } else if s.len() == 0 {
        (st, LZMA_OK, 0)
    } else if st.sequence == SEQ_INDICATOR {
        if s[0] != 0 {
            (st, LZMA_DATA_ERROR, 1)
        } else {
            id_after(
                id_run(
                    IndexCoderModel {
                        sequence: SEQ_COUNT,
                        crc_input: st.crc_input.push(s[0]),
                        ..st
                    },
                    s.drop_first(),
                ),
                1,
            )
        }
    } else if st.sequence == SEQ_COUNT {
        match vli_run(vli_acc(st.count, st.pos), st.pos, s) {
            VliRun::Partial { value, pos } => (
                IndexCoderModel { count: value, pos, crc_input: st.crc_input + s, ..st },
                LZMA_OK,
                s.len(),
            ),
            VliRun::Corrupt { used, .. } => (st, LZMA_DATA_ERROR, used),
            VliRun::Complete { value, used } => {
                if used == 0 || used > s.len() {
                    (st, LZMA_DATA_ERROR, used)
                } else if memusage_spec(1, value) > st.memlimit {
                    (IndexCoderModel { count: value, pos: 0, ..st }, LZMA_MEMLIMIT_ERROR, used)
                } else {
                    id_after(
                        id_run(
                            IndexCoderModel {
                                count: value,
                                pos: 0,
                                sequence: if value == 0 {
                                    SEQ_PADDING_INIT
                                } else {
                                    SEQ_UNPADDED
                                },
                                crc_input: st.crc_input + s.take(used as int),
                                ..st
                            },
                            s.skip(used as int),
                        ),
                        used,
                    )
                }
            },
        }
    } else if st.sequence == SEQ_UNPADDED || st.sequence == SEQ_UNCOMPRESSED {
        let field = if st.sequence == SEQ_UNPADDED {
            st.unpadded_size
        } else {
            st.uncompressed_size
        };
        match vli_run(vli_acc(field, st.pos), st.pos, s) {
            VliRun::Partial { value, pos } => (
                if st.sequence == SEQ_UNPADDED {
                    IndexCoderModel { unpadded_size: value, pos, crc_input: st.crc_input + s, ..st }
                } else {
                    IndexCoderModel {
                        uncompressed_size: value,
                        pos,
                        crc_input: st.crc_input + s,
                        ..st
                    }
                },
                LZMA_OK,
                s.len(),
            ),
            VliRun::Corrupt { used, .. } => (st, LZMA_DATA_ERROR, used),
            VliRun::Complete { value, used } => {
                if used == 0 || used > s.len() {
                    (st, LZMA_DATA_ERROR, used)
                } else if st.sequence == SEQ_UNPADDED {
                    if value < UNPADDED_SIZE_MIN || value > UNPADDED_SIZE_MAX {
                        (st, LZMA_DATA_ERROR, used)
                    } else {
                        id_after(
                            id_run(
                                IndexCoderModel {
                                    unpadded_size: value,
                                    pos: 0,
                                    sequence: SEQ_UNCOMPRESSED,
                                    crc_input: st.crc_input + s.take(used as int),
                                    ..st
                                },
                                s.skip(used as int),
                            ),
                            used,
                        )
                    }
                } else if !pairs_append_ok(st.pairs, st.unpadded_size, value) || st.count == 0 {
                    (st, LZMA_DATA_ERROR, used)
                } else {
                    let rem = (st.count - 1) as u64;
                    id_after(
                        id_run(
                            IndexCoderModel {
                                uncompressed_size: value,
                                pairs: st.pairs.push((st.unpadded_size, value)),
                                count: rem,
                                pos: 0,
                                sequence: if rem == 0 {
                                    SEQ_PADDING_INIT
                                } else {
                                    SEQ_UNPADDED
                                },
                                crc_input: st.crc_input + s.take(used as int),
                                ..st
                            },
                            s.skip(used as int),
                        ),
                        used,
                    )
                }
            },
        }
    } else if st.sequence == SEQ_PADDING_INIT {
        id_run(
            IndexCoderModel {
                pos: padding_of(st.pairs.len() as u64, list_of_pairs(st.pairs) as u64),
                sequence: SEQ_PADDING,
                ..st
            },
            s,
        )
    } else if st.sequence == SEQ_PADDING {
        if st.pos > 0 {
            if s[0] != 0 {
                (st, LZMA_DATA_ERROR, 1)
            } else {
                id_after(
                    id_run(
                        IndexCoderModel {
                            pos: (st.pos - 1) as nat,
                            crc_input: st.crc_input.push(s[0]),
                            ..st
                        },
                        s.drop_first(),
                    ),
                    1,
                )
            }
        } else {
            id_run(IndexCoderModel { sequence: SEQ_CRC32, pos: 0, ..st }, s)
        }
    } else {
        let crc = crc32_of(st.crc_input, 0);
        if st.pos >= 4 || ((crc >> ((st.pos * 8) as u32)) & 0xff) != s[0] as u32 {
            (st, LZMA_DATA_ERROR, 1)
        } else if st.pos + 1 >= 4 {
            (IndexCoderModel { pos: st.pos + 1, ..st }, LZMA_STREAM_END, 1)
        } else {
            id_after(id_run(IndexCoderModel { pos: st.pos + 1, ..st }, s.drop_first()), 1)
        }
    }
}

/// The state a decoder starts in with the memory limit `memlimit`.
pub open spec fn id_start(memlimit: u64) -> IndexCoderModel {
    IndexCoderModel {
        sequence: SEQ_INDICATOR,
        memlimit: if memlimit < 1 { 1 } else { memlimit },
        pairs: Seq::empty(),
        count: 0,
        unpadded_size: 0,
        uncompressed_size: 0,
        pos: 0,
        crc_input: Seq::empty(),
    }
}

/// The decoding state of `m` is one the decoder can reach.
pub open spec fn model_wf(m: IndexCoderModel) -> bool {
    &&& m.sequence <= SEQ_CRC32
    &&& m.sequence != 2
    &&& m.memlimit >= 1
    &&& m.sequence == SEQ_INDICATOR ==> m.pos == 0
    &&& m.sequence <= SEQ_COUNT ==> m.pairs.len() == 0
    &&& m.sequence == SEQ_COUNT ==> m.pos < 9 && (m.pos == 0 || m.count >> ((m.pos * 7) as u64)
        == 0)
    &&& (m.sequence == SEQ_UNPADDED || m.sequence == SEQ_UNCOMPRESSED) ==> m.count > 0
    &&& m.sequence == SEQ_UNPADDED ==> m.pos < 9 && (m.pos == 0 || m.unpadded_size >> ((m.pos
        * 7) as u64) == 0)
    &&& m.sequence == SEQ_UNCOMPRESSED ==> m.pos < 9 && (m.pos == 0 || m.uncompressed_size >> ((
    m.pos * 7) as u64) == 0) && UNPADDED_SIZE_MIN <= m.unpadded_size <= UNPADDED_SIZE_MAX
    &&& m.sequence >= SEQ_PADDING_INIT ==> m.count == 0
    &&& m.sequence == SEQ_PADDING ==> m.pos < 4
    &&& m.sequence == SEQ_CRC32 ==> m.pos <= 4
}

/// A decoder of an Index field that reads its input in pieces.
#[allow(non_camel_case_types)]
pub struct lzma_index_coder {
    sequence: u32,
    memlimit: u64,
    index: lzma_index_s,
    count: u64,
    unpadded_size: u64,
    uncompressed_size: u64,
    pos: usize,
    crc32: u32,
    pairs: Ghost<Seq<(u64, u64)>>,
    crc_input: Ghost<Seq<u8>>,
}

impl View for lzma_index_coder {
    type V = IndexCoderModel;

    closed spec fn view(&self) -> IndexCoderModel {
        IndexCoderModel {
            sequence: self.sequence,
            memlimit: self.memlimit,
            pairs: self.pairs@,
            count: self.count,
            unpadded_size: self.unpadded_size,
            uncompressed_size: self.uncompressed_size,
            pos: self.pos as nat,
            crc_input: self.crc_input@,
        }
    }
}

impl lzma_index_coder {
    /// The state is consistent and reachable, and the Index holds the Blocks
    /// read so far.
    pub closed spec fn wf(&self) -> bool {
        &&& model_wf(self@)
        &&& index_holds(self.index, self.pairs@)
        &&& self.crc32 == crc32_of(self.crc_input@, 0)
    }

    /// The Index of a decoder that has read a whole Index field: one Stream
    /// whose Blocks are those the field lists.
    pub fn into_index(self) -> (i: lzma_index_s)
        requires
            self.wf(),
        ensures
            index_holds(i, self@.pairs),
    {
        self.index
    }
}

/// Creates a decoder of an Index field with the memory limit `memlimit` (0
/// counts as 1).
pub fn lzma_index_decoder(memlimit: u64) -> (c: lzma_index_coder)
    ensures
        c.wf(),
        c@ == id_start(memlimit),
{
    let index = lzma_index_init();
    let c = lzma_index_coder {
        sequence: SEQ_INDICATOR,
        memlimit: if memlimit < 1 {
            1
        } else {
            memlimit
        },
        index,
        count: 0,
        unpadded_size: 0,
        uncompressed_size: 0,
        pos: 0,
        crc32: 0,
        pairs: Ghost(Seq::empty()),
        crc_input: Ghost(Seq::empty()),
    };
    proof {
        crate::crc::lemma_crc_of_empty();
        assert(index.last_stream().records@ =~= records_of_pairs(Seq::empty()));
    }
    c
}

/// Reports the memory the decoder's Index needs for the Number of Records
/// it holds (`memusage`) and its memory limit (`old_memlimit`); sets a new
/// limit when `new_memlimit` is not 0: `LZMA_MEMLIMIT_ERROR`, with the limit
/// kept, when it is below that need.
pub fn index_decoder_memconfig(
    coder: &mut lzma_index_coder,
    memusage: &mut u64,
    old_memlimit: &mut u64,
    new_memlimit: u64,
) -> (r: u32)
    requires
        old(coder).wf(),
    ensures
        final(coder).wf(),
        *final(memusage) == memusage_spec(1, old(coder)@.count),
        *final(old_memlimit) == old(coder)@.memlimit,
        if new_memlimit != 0 && new_memlimit < memusage_spec(1, old(coder)@.count) {
            r == LZMA_MEMLIMIT_ERROR && final(coder)@ == old(coder)@
        } else if new_memlimit != 0 {
            r == LZMA_OK && final(coder)@ == (IndexCoderModel {
                memlimit: new_memlimit,
                ..old(coder)@
            })
        } else {
            r == LZMA_OK && final(coder)@ == old(coder)@
        },
{
    *memusage = lzma_index_memusage(1, coder.count);
    *old_memlimit = coder.memlimit;
    if new_memlimit != 0 {
        if new_memlimit < *memusage {
            return LZMA_MEMLIMIT_ERROR;
        }
        coder.memlimit = new_memlimit;
    }
    LZMA_OK
}

/// One step of the decoder went as `id_run` says: either it finished with
/// the result of the whole run, or the rest of the run from the new state
/// gives the same result.
pub open spec fn id_step_agrees(
    m: IndexCoderModel,
    p: nat,
    m2: IndexCoderModel,
    p2: nat,
    input: Seq<u8>,
    done: bool,
    ret: u32,
) -> bool {
    let r = id_run(m, input.skip(p as int));
    if done {
        &&& ret == r.1
        &&& p2 == p + r.2
        &&& (ret == LZMA_OK || ret == LZMA_STREAM_END) ==> m2 == r.0
        &&& ret == LZMA_MEMLIMIT_ERROR ==> m2.count == r.0.count
    } else {
        &&& p <= p2 <= input.len()
        &&& p < p2 || m2.sequence > m.sequence
        &&& m2.sequence <= SEQ_CRC32
        &&& r == id_after(id_run(m2, input.skip(p2 as int)), (p2 - p) as nat)
    }
}

proof fn lemma_id_run_used(st: IndexCoderModel, s: Seq<u8>)
    ensures
        id_run(st, s).2 <= s.len(),
        id_run(st, s).1 == LZMA_OK || id_run(st, s).1 == LZMA_STREAM_END || id_run(st, s).1
            == LZMA_DATA_ERROR || id_run(st, s).1 == LZMA_MEMLIMIT_ERROR || id_run(st, s).1
            == LZMA_PROG_ERROR,
        id_run(st, s).1 == LZMA_OK ==> id_run(st, s).2 == s.len(),
    decreases s.len(), 7 - st.sequence,
{
    if st.sequence > SEQ_CRC32 || s.len() == 0 {
    } else if st.sequence == SEQ_INDICATOR {
        if s[0] == 0 {
            lemma_id_run_used(
                IndexCoderModel { sequence: SEQ_COUNT, crc_input: st.crc_input.push(s[0]), ..st },
                s.drop_first(),
            );
        }
    } else if st.sequence == SEQ_COUNT {
        lemma_vli_run_used(vli_acc(st.count, st.pos), st.pos, s);
        match vli_run(vli_acc(st.count, st.pos), st.pos, s) {
            VliRun::Complete { value, used } => {
                if !(used == 0 || used > s.len()) && !(memusage_spec(1, value) > st.memlimit) {
                    lemma_id_run_used(
                        IndexCoderModel {
                            count: value,
                            pos: 0,
                            sequence: if value == 0 {
                                SEQ_PADDING_INIT
                            } else {
                                SEQ_UNPADDED
                            },
                            crc_input: st.crc_input + s.take(used as int),
                            ..st
                        },
                        s.skip(used as int),
                    );
                }
            },
            _ => {},
        }
    } else if st.sequence == SEQ_UNPADDED || st.sequence == SEQ_UNCOMPRESSED {
        let field = if st.sequence == SEQ_UNPADDED {
            st.unpadded_size
        } else {
            st.uncompressed_size
        };
        lemma_vli_run_used(vli_acc(field, st.pos), st.pos, s);
        match vli_run(vli_acc(field, st.pos), st.pos, s) {
            VliRun::Complete { value, used } => {
                if used == 0 || used > s.len() {
                } else if st.sequence == SEQ_UNPADDED {
                    if !(value < UNPADDED_SIZE_MIN || value > UNPADDED_SIZE_MAX) {
                        lemma_id_run_used(
                            IndexCoderModel {
                                unpadded_size: value,
                                pos: 0,
                                sequence: SEQ_UNCOMPRESSED,
                                crc_input: st.crc_input + s.take(used as int),
                                ..st
                            },
                            s.skip(used as int),
                        );
                    }
                } else if !(!pairs_append_ok(st.pairs, st.unpadded_size, value) || st.count == 0) {
                    let rem = (st.count - 1) as u64;
                    lemma_id_run_used(
                        IndexCoderModel {
                            uncompressed_size: value,
                            pairs: st.pairs.push((st.unpadded_size, value)),
                            count: rem,
                            pos: 0,
                            sequence: if rem == 0 {
                                SEQ_PADDING_INIT
                            } else {
                                SEQ_UNPADDED
                            },
                            crc_input: st.crc_input + s.take(used as int),
                            ..st
                        },
                        s.skip(used as int),
                    );
                }
            },
            _ => {},
        }
    } else if st.sequence == SEQ_PADDING_INIT {
        lemma_id_run_used(
            IndexCoderModel {
                pos: padding_of(st.pairs.len() as u64, list_of_pairs(st.pairs) as u64),
                sequence: SEQ_PADDING,
                ..st
            },
            s,
        );
    } else if st.sequence == SEQ_PADDING {
        if st.pos > 0 {
            if s[0] == 0 {
                lemma_id_run_used(
                    IndexCoderModel {
                        pos: (st.pos - 1) as nat,
                        crc_input: st.crc_input.push(s[0]),
                        ..st
                    },
                    s.drop_first(),
                );
            }
        } else {
            lemma_id_run_used(IndexCoderModel { sequence: SEQ_CRC32, pos: 0, ..st }, s);
        }
    } else {
        let crc = crc32_of(st.crc_input, 0);
        if !(st.pos >= 4 || ((crc >> ((st.pos * 8) as u32)) & 0xff) != s[0] as u32) && !(st.pos
            + 1 >= 4) {
            lemma_id_run_used(IndexCoderModel { pos: st.pos + 1, ..st }, s.drop_first());
        }
    }
}

fn step_indicator(c: &mut lzma_index_coder, input: &[u8], in_pos: &mut usize) -> (res: (bool, u32))
    requires
        old(c).wf(),
        old(c)@.sequence == SEQ_INDICATOR,
        *old(in_pos) < input@.len(),
    ensures
        id_step_agrees(old(c)@, *old(in_pos) as nat, final(c)@, *final(in_pos) as nat, input@, res.0, res.1),
        !res.0 || res.1 == LZMA_OK || res.1 == LZMA_STREAM_END ==> final(c).wf(),
        res.0 ==> *final(in_pos) > *old(in_pos) || final(c)@.sequence == old(c)@.sequence,
{
    let ghost s = input@.skip(*in_pos as int);
    let byte = input[*in_pos];
    *in_pos = *in_pos + 1;
    if byte != 0 {
        return (true, LZMA_DATA_ERROR);
    }
    let one = [byte];
    proof {
        law_crc32_chunked(c.crc_input@, one@, 0);
        assert(one@ =~= seq![byte]);
        assert(c.crc_input@ + one@ =~= c.crc_input@.push(byte));
    }
    c.crc32 = crc32(one.as_slice(), c.crc32);
    c.sequence = SEQ_COUNT;
    c.crc_input = Ghost(c.crc_input@.push(byte));
    proof {
        assert(s.drop_first() =~= input@.skip(*in_pos as int));
    }
    (false, LZMA_OK)
}

fn step_vli(c: &mut lzma_index_coder, input: &[u8], in_pos: &mut usize) -> (res: (bool, u32))
    requires
        old(c).wf(),
        old(c)@.sequence == SEQ_COUNT || old(c)@.sequence == SEQ_UNPADDED || old(c)@.sequence
            == SEQ_UNCOMPRESSED,
        *old(in_pos) < input@.len(),
    ensures
        id_step_agrees(old(c)@, *old(in_pos) as nat, final(c)@, *final(in_pos) as nat, input@, res.0, res.1),
        !res.0 || res.1 == LZMA_OK || res.1 == LZMA_STREAM_END ==> final(c).wf(),
        res.0 ==> *final(in_pos) > *old(in_pos) || final(c)@.sequence == old(c)@.sequence,
{
    let ghost cur = c@;
    let ghost s = input@.skip(*in_pos as int);
    let p0 = *in_pos;
    let seq = c.sequence;
    proof {
        let field = if seq == SEQ_COUNT {
            cur.count
        } else if seq == SEQ_UNPADDED {
            cur.unpadded_size
        } else {
            cur.uncompressed_size
        };
        lemma_vli_run_used(vli_acc(field, cur.pos), cur.pos, s);
        if cur.pos == 0 {
            crate::vli::lemma_vli_start_bound(s);
        } else {
            lemma_vli_run_bound(vli_acc(field, cur.pos), cur.pos, s);
        }
    }
    let r = if seq == SEQ_COUNT {
        lzma_vli_decode(&mut c.count, Some(&mut c.pos), input, in_pos)
    } else if seq == SEQ_UNPADDED {
        lzma_vli_decode(&mut c.unpadded_size, Some(&mut c.pos), input, in_pos)
    } else {
        lzma_vli_decode(&mut c.uncompressed_size, Some(&mut c.pos), input, in_pos)
    };
    if r != LZMA_OK && r != LZMA_STREAM_END {
        return (true, r);
    }
    let used = vstd::slice::slice_subrange(input, p0, *in_pos);
    proof {
        law_crc32_chunked(cur.crc_input, used@, 0);
        assert(used@ =~= s.take((*in_pos - p0) as int));
    }
    c.crc32 = crc32(used, c.crc32);
    c.crc_input = Ghost(cur.crc_input + used@);
    if r == LZMA_OK {
        proof {
            assert(used@ =~= s);
        }
        return (true, LZMA_OK);
    }
    proof {
        assert(s.skip((*in_pos - p0) as int) =~= input@.skip(*in_pos as int));
    }
    c.pos = 0;
    if seq == SEQ_COUNT {
        if lzma_index_memusage(1, c.count) > c.memlimit {
            return (true, LZMA_MEMLIMIT_ERROR);
        }
        lzma_index_prealloc(&mut c.index, c.count);
        c.sequence = if c.count == 0 {
            SEQ_PADDING_INIT
        } else {
            SEQ_UNPADDED
        };
        (false, LZMA_OK)
    } else if seq == SEQ_UNPADDED {
        if c.unpadded_size < UNPADDED_SIZE_MIN || c.unpadded_size > UNPADDED_SIZE_MAX {
            return (true, LZMA_DATA_ERROR);
        }
        c.sequence = SEQ_UNCOMPRESSED;
        (false, LZMA_OK)
    } else {
        let ghost pairs = c.pairs@;
        proof {
            crate::index_decoder::lemma_append_result(
                c.index,
                pairs,
                c.unpadded_size,
                c.uncompressed_size,
            );
        }
        let ret = lzma_index_append(&mut c.index, c.unpadded_size, c.uncompressed_size);
        if ret != LZMA_OK {
            return (true, ret);
        }
        proof {
            let np = pairs.push((c.unpadded_size, c.uncompressed_size));
            assert(np.drop_last() =~= pairs);
            crate::index_decoder::lemma_records_len(pairs);
        }
        c.pairs = Ghost(pairs.push((c.unpadded_size, c.uncompressed_size)));
        c.count = c.count - 1;
        c.sequence = if c.count == 0 {
            SEQ_PADDING_INIT
        } else {
            SEQ_UNPADDED
        };
        (false, LZMA_OK)
    }
}

fn step_padding(c: &mut lzma_index_coder, input: &[u8], in_pos: &mut usize) -> (res: (bool, u32))
    requires
        old(c).wf(),
        old(c)@.sequence == SEQ_PADDING_INIT || old(c)@.sequence == SEQ_PADDING,
        *old(in_pos) < input@.len(),
    ensures
        id_step_agrees(old(c)@, *old(in_pos) as nat, final(c)@, *final(in_pos) as nat, input@, res.0, res.1),
        !res.0 || res.1 == LZMA_OK || res.1 == LZMA_STREAM_END ==> final(c).wf(),
        res.0 ==> *final(in_pos) > *old(in_pos) || final(c)@.sequence == old(c)@.sequence,
{
    let ghost s = input@.skip(*in_pos as int);
    if c.sequence == SEQ_PADDING_INIT {
        c.pos = lzma_index_padding_size(&c.index) as usize;
        c.sequence = SEQ_PADDING;
        return (false, LZMA_OK);
    }
    if c.pos > 0 {
        let byte = input[*in_pos];
        *in_pos = *in_pos + 1;
        if byte != 0 {
            return (true, LZMA_DATA_ERROR);
        }
        c.pos = c.pos - 1;
        let one = [byte];
        proof {
            law_crc32_chunked(c.crc_input@, one@, 0);
            assert(one@ =~= seq![byte]);
            assert(c.crc_input@ + one@ =~= c.crc_input@.push(byte));
        }
        c.crc32 = crc32(one.as_slice(), c.crc32);
        c.crc_input = Ghost(c.crc_input@.push(byte));
        proof {
            assert(s.drop_first() =~= input@.skip(*in_pos as int));
        }
        return (false, LZMA_OK);
    }
    c.sequence = SEQ_CRC32;
    (false, LZMA_OK)
}

fn step_crc(c: &mut lzma_index_coder, input: &[u8], in_pos: &mut usize) -> (res: (bool, u32))
    requires
        old(c).wf(),
        old(c)@.sequence == SEQ_CRC32,
        *old(in_pos) < input@.len(),
    ensures
        id_step_agrees(old(c)@, *old(in_pos) as nat, final(c)@, *final(in_pos) as nat, input@, res.0, res.1),
        !res.0 || res.1 == LZMA_OK || res.1 == LZMA_STREAM_END ==> final(c).wf(),
        res.0 ==> *final(in_pos) > *old(in_pos) || final(c)@.sequence == old(c)@.sequence,
{
    let ghost s = input@.skip(*in_pos as int);
    let byte = input[*in_pos];
    *in_pos = *in_pos + 1;
    if c.pos >= 4 || (c.crc32 >> ((c.pos * 8) as u32)) & 0xff != byte as u32 {
        return (true, LZMA_DATA_ERROR);
    }
    c.pos = c.pos + 1;
    if c.pos >= 4 {
        return (true, LZMA_STREAM_END);
    }
    proof {
        assert(s.drop_first() =~= input@.skip(*in_pos as int));
    }
    (false, LZMA_OK)
}

/// Decodes the Index field from `input`, starting at `*in_pos` and advancing
/// it: `LZMA_OK` when the input ran out before the end of the field,
/// `LZMA_STREAM_END` when the whole field was read (the decoder then holds
/// its Index), `LZMA_MEMLIMIT_ERROR` when the Number of Records needs more
/// memory than the limit allows, `LZMA_DATA_ERROR` when the field is
/// corrupt. What it does over the input is `id_run`.
pub fn index_decode(coder: &mut lzma_index_coder, input: &[u8], in_pos: &mut usize) -> (ret: u32)
    requires
        old(coder).wf(),
        *old(in_pos) <= input@.len(),
    ensures
        ({
            let start = *old(in_pos);
            let r = id_run(old(coder)@, input@.skip(start as int));
            &&& ret == r.1
            &&& *final(in_pos) == start + r.2
            &&& (ret == LZMA_OK || ret == LZMA_STREAM_END) ==> final(coder)@ == r.0
                && final(coder).wf()
            &&& ret == LZMA_MEMLIMIT_ERROR ==> final(coder)@.count == r.0.count
        }),
        *final(in_pos) <= input@.len(),
        ret == LZMA_OK ==> *final(in_pos) == input@.len(),
        ret == LZMA_OK || ret == LZMA_STREAM_END || ret == LZMA_DATA_ERROR || ret
            == LZMA_MEMLIMIT_ERROR || ret == LZMA_PROG_ERROR,
{
    proof {
        lemma_id_run_used(coder@, input@.skip(*in_pos as int));
    }
    let in_size = input.len();
    let in_start = *in_pos;
    let ghost m0 = coder@;
    let ghost whole = id_run(m0, input@.skip(in_start as int));
    let mut ret: u32 = LZMA_OK;
    let mut done = false;
    while *in_pos < in_size && !done
        invariant
            in_size == input@.len(),
            in_start <= *in_pos <= in_size,
            whole == id_run(m0, input@.skip(in_start as int)),
            !done || ret == LZMA_OK || ret == LZMA_STREAM_END ==> coder.wf(),
            !done ==> coder@.sequence <= SEQ_CRC32 && whole == id_after(
                id_run(coder@, input@.skip(*in_pos as int)),
                (*in_pos - in_start) as nat,
            ),
            done ==> ret == whole.1 && *in_pos == in_start + whole.2,
            done && (ret == LZMA_OK || ret == LZMA_STREAM_END) ==> coder@ == whole.0,
            done && ret == LZMA_MEMLIMIT_ERROR ==> coder@.count == whole.0.count,
        decreases (in_size - *in_pos) * 8 + (if coder.sequence <= 7 {
            7 - coder.sequence
        } else {
            0int
        }) + (if done {
            0int
        } else {
            1int
        }),
    {
        let ghost p = *in_pos;
        let ghost m = coder@;
        proof {
            lemma_id_run_used(m, input@.skip(p as int));
        }
        let res = if coder.sequence == SEQ_INDICATOR {
            step_indicator(coder, input, in_pos)
        } else if coder.sequence <= SEQ_UNCOMPRESSED {
            step_vli(coder, input, in_pos)
        } else if coder.sequence <= SEQ_PADDING {
            step_padding(coder, input, in_pos)
        } else {
            step_crc(coder, input, in_pos)
        };
        done = res.0;
        ret = res.1;
    }
    if !done {
        proof {
            assert(input@.skip(*in_pos as int).len() == 0);
        }
        return LZMA_OK;
    }
    ret
}

/// Two results of the decoder agree: the same value and the same number of
/// bytes read, and the same state where the state is meaningful.
pub open spec fn id_agree(x: (IndexCoderModel, u32, nat), y: (IndexCoderModel, u32, nat)) -> bool {
    &&& x.1 == y.1
    &&& x.2 == y.2
    &&& (x.1 == LZMA_OK || x.1 == LZMA_STREAM_END) ==> x.0 == y.0
    &&& x.1 == LZMA_MEMLIMIT_ERROR ==> x.0.count == y.0.count
}

/// Feeding the decoder the input `a + b` at once agrees with feeding it `a`
/// and then, when `a` was used up without an end, `b` from the state it left:
/// how the input is cut into pieces does not change what is decoded.
#[verifier::rlimit(100)]
#[verifier::spinoff_prover]
pub proof fn law_index_decode_chunked(m: IndexCoderModel, a: Seq<u8>, b: Seq<u8>)
    requires
        m.sequence <= SEQ_CRC32,
    ensures
        id_run(m, a).1 == LZMA_OK ==> id_run(m, a).2 == a.len() && id_agree(
            id_run(m, a + b),
            id_after(id_run(id_run(m, a).0, b), a.len()),
        ),
        id_run(m, a).1 != LZMA_OK ==> id_agree(id_run(m, a + b), id_run(m, a)),
    decreases a.len(), 7 - m.sequence,
{
    let ab = a + b;
    if a.len() == 0 {
        assert(ab =~= b);
        return;
    }
    assert(ab[0] == a[0]);
    assert(ab.drop_first() =~= a.drop_first() + b);
    if m.sequence == SEQ_INDICATOR {
        if a[0] == 0 {
            let n = IndexCoderModel { sequence: SEQ_COUNT, crc_input: m.crc_input.push(a[0]), ..m };
            law_index_decode_chunked(n, a.drop_first(), b);
        }
        return;
    } else if m.sequence == SEQ_COUNT || m.sequence == SEQ_UNPADDED || m.sequence
        == SEQ_UNCOMPRESSED {
        let field = if m.sequence == SEQ_COUNT {
            m.count
        } else if m.sequence == SEQ_UNPADDED {
            m.unpadded_size
        } else {
            m.uncompressed_size
        };
        let acc = vli_acc(field, m.pos);
        lemma_vli_run_concat(acc, m.pos, a, b);
        lemma_vli_run_used(acc, m.pos, a);
        match vli_run(acc, m.pos, a) {
            VliRun::Partial { value, pos } => {
                let r = id_run(m, a);
                let m2 = r.0;
                assert(pos >= 1);
                assert(vli_acc(value, pos) == value);
                assert(m2.crc_input == m.crc_input + a);
                lemma_vli_run_used(value, pos, b);
                match vli_run(value, pos, b) {
                    VliRun::Partial { value: v2, pos: p2 } => {
                        assert(m.crc_input + ab =~= m2.crc_input + b);
                    },
                    VliRun::Complete { value: v2, used } => {
                        assert((m.crc_input + ab.take((used + a.len()) as int)) =~= m2.crc_input + b.take(
                            used as int,
                        ));
                        assert(ab.skip((used + a.len()) as int) =~= b.skip(used as int));
                    },
                    VliRun::Corrupt { .. } => {},
                }
            },
            VliRun::Complete { value, used } => {
                assert(ab.take(used as int) =~= a.take(used as int));
                assert(ab.skip(used as int) =~= a.skip(used as int) + b);
                let ci = m.crc_input + a.take(used as int);
                if m.sequence == SEQ_COUNT {
                    if !(memusage_spec(1, value) > m.memlimit) {
                        let n = IndexCoderModel {
                            count: value,
                            pos: 0,
                            sequence: if value == 0 {
                                SEQ_PADDING_INIT
                            } else {
                                SEQ_UNPADDED
                            },
                            crc_input: ci,
                            ..m
                        };
                        law_index_decode_chunked(n, a.skip(used as int), b);
                    }
                } else if m.sequence == SEQ_UNPADDED {
                    if !(value < UNPADDED_SIZE_MIN || value > UNPADDED_SIZE_MAX) {
                        let n = IndexCoderModel {
                            unpadded_size: value,
                            pos: 0,
                            sequence: SEQ_UNCOMPRESSED,
                            crc_input: ci,
                            ..m
                        };
                        law_index_decode_chunked(n, a.skip(used as int), b);
                    }
                } else if !(!pairs_append_ok(m.pairs, m.unpadded_size, value) || m.count == 0) {
                    let rem = (m.count - 1) as u64;
                    let n = IndexCoderModel {
                        uncompressed_size: value,
                        pairs: m.pairs.push((m.unpadded_size, value)),
                        count: rem,
                        pos: 0,
                        sequence: if rem == 0 {
                            SEQ_PADDING_INIT
                        } else {
                            SEQ_UNPADDED
                        },
                        crc_input: ci,
                        ..m
                    };
                    law_index_decode_chunked(n, a.skip(used as int), b);
                }
            },
            VliRun::Corrupt { .. } => {},
        }
        return;
    } else if m.sequence == SEQ_PADDING_INIT {
        let n = IndexCoderModel {
            pos: padding_of(m.pairs.len() as u64, list_of_pairs(m.pairs) as u64),
            sequence: SEQ_PADDING,
            ..m
        };
        law_index_decode_chunked(n, a, b);
        return;
    } else if m.sequence == SEQ_PADDING {
        if m.pos > 0 {
            if a[0] == 0 {
                let n = IndexCoderModel {
                    pos: (m.pos - 1) as nat,
                    crc_input: m.crc_input.push(a[0]),
                    ..m
                };
                law_index_decode_chunked(n, a.drop_first(), b);
            }
        } else {
            law_index_decode_chunked(IndexCoderModel { sequence: SEQ_CRC32, pos: 0, ..m }, a, b);
        }
        return;
    } else {
        let crc = crc32_of(m.crc_input, 0);
        if !(m.pos >= 4 || ((crc >> ((m.pos * 8) as u32)) & 0xff) != a[0] as u32) && !(m.pos
            + 1 >= 4) {
            law_index_decode_chunked(IndexCoderModel { pos: m.pos + 1, ..m }, a.drop_first(), b);
        }
    }
}

/// Two results of the decoder have the same outcome: the same value, the
/// same number of bytes read and, at the end of the field, the same Blocks.
pub open spec fn id_same_outcome(x: (IndexCoderModel, u32, nat), y: (IndexCoderModel, u32, nat)) -> bool {
    &&& x.1 == y.1
    &&& x.2 == y.2
    &&& x.1 == LZMA_STREAM_END ==> x.0.pairs == y.0.pairs
}

/// A byte of the CRC32 field matches as the decoder compares it exactly when
/// it is that byte of the little-endian CRC32.
pub(crate) proof fn lemma_crc_byte(x: u32, b: u8, i: nat)
    requires
        i < 4,
    ensures
        (((x >> ((i * 8) as u32)) & 0xff) == b as u32) == (le32_bytes(x)[i as int] == b),
{
    assert({
        &&& (((x >> 0u32) & 0xff) == b as u32) == ((x as u8) == b)
        &&& (((x >> 8u32) & 0xff) == b as u32) == (((x >> 8u32) as u8) == b)
        &&& (((x >> 16u32) & 0xff) == b as u32) == (((x >> 16u32) as u8) == b)
        &&& (((x >> 24u32) & 0xff) == b as u32) == (((x >> 24u32) as u8) == b)
    }) by (bit_vector);
    if i == 0 {
        assert((i * 8) as u32 == 0u32);
    } else if i == 1 {
        assert((i * 8) as u32 == 8u32);
    } else if i == 2 {
        assert((i * 8) as u32 == 16u32);
    } else {
        assert((i * 8) as u32 == 24u32);
    }
}

/// From the CRC32 field onward: with `k` of its bytes matched, the decoder
/// ends the field when the rest of the four bytes of `u` match, fails at
/// the first that does not, and asks for more when `u` runs out first.
proof fn lemma_crc_run(st: IndexCoderModel, u: Seq<u8>)
    requires
        st.sequence == SEQ_CRC32,
        st.pos < 4,
    ensures
        ({
            let want = le32_bytes(crc32_of(st.crc_input, 0)).skip(st.pos as int);
            let r = id_run(st, u);
            if u.len() >= want.len() && u.take(want.len() as int) == want {
                r.1 == LZMA_STREAM_END && r.2 == want.len() && r.0.pairs == st.pairs
            } else {
                r.1 == LZMA_DATA_ERROR || (r.1 == LZMA_OK && u.len() < want.len())
            }
        }),
    decreases u.len(),
{
    let crc = crc32_of(st.crc_input, 0);
    let want = le32_bytes(crc).skip(st.pos as int);
    if u.len() == 0 {
        return;
    }
    lemma_crc_byte(crc, u[0], st.pos);
    assert(want[0] == le32_bytes(crc)[st.pos as int]);
    if u[0] != want[0] {
        if u.len() >= want.len() {
            assert(u.take(want.len() as int)[0] != want[0]);
        }
        return;
    }
    if st.pos + 1 >= 4 {
        assert(want.len() == 1);
        assert(u.take(1) =~= want);
        return;
    }
    let n = IndexCoderModel { pos: st.pos + 1, ..st };
    lemma_crc_run(n, u.drop_first());
    let want2 = le32_bytes(crc).skip((st.pos + 1) as int);
    assert(want2 =~= want.drop_first());
    if u.len() >= want.len() {
        assert(u.take(want.len() as int) == want <==> u.drop_first().take(want2.len() as int)
            == want2) by {
            if u.drop_first().take(want2.len() as int) == want2 {
                assert(u.take(want.len() as int) =~= seq![u[0]] + u.drop_first().take(
                    want2.len() as int,
                ));
                assert(want =~= seq![want[0]] + want2);
            }
            if u.take(want.len() as int) == want {
                assert(u.drop_first().take(want2.len() as int) =~= u.take(want.len() as int).drop_first());
            }
        }
    }
}

/// From the Index Padding onward: with `k` padding bytes left, the decoder
/// reads them when they are zero and goes on to the CRC32 with them added
/// to the bytes it covers; it fails at the first that is not zero.
proof fn lemma_padding_run(st: IndexCoderModel, u: Seq<u8>)
    requires
        st.sequence == SEQ_PADDING,
    ensures
        ({
            let k = st.pos;
            let r = id_run(st, u);
            if u.len() >= k && (forall|j: int| 0 <= j < k ==> u[j] == 0) {
                id_same_outcome(
                    r,
                    id_after(
                        id_run(
                            IndexCoderModel {
                                sequence: SEQ_CRC32,
                                pos: 0,
                                crc_input: st.crc_input + u.take(k as int),
                                ..st
                            },
                            u.skip(k as int),
                        ),
                        k,
                    ),
                ) && (r.1 == LZMA_STREAM_END ==> r.0.pairs == st.pairs)
            } else {
                r.1 == LZMA_DATA_ERROR || (r.1 == LZMA_OK && u.len() < k)
            }
        }),
    decreases u.len(), st.pos,
{
    let k = st.pos;
    if k == 0 {
        assert(u.take(0) =~= Seq::<u8>::empty());
        assert(st.crc_input + u.take(0) =~= st.crc_input);
        assert(u.skip(0) =~= u);
        if u.len() > 0 {
            let c = IndexCoderModel { sequence: SEQ_CRC32, pos: 0, ..st };
            if u.len() >= 4 && u.take(4) == le32_bytes(crc32_of(st.crc_input, 0)) {
                assert(le32_bytes(crc32_of(st.crc_input, 0)).skip(0) =~= le32_bytes(
                    crc32_of(st.crc_input, 0),
                ));
            }
            lemma_crc_run(c, u);
            assert(le32_bytes(crc32_of(st.crc_input, 0)).skip(0) =~= le32_bytes(
                crc32_of(st.crc_input, 0),
            ));
        }
        return;
    }
    if u.len() == 0 {
        return;
    }
    if u[0] != 0 {
        return;
    }
    let n = IndexCoderModel { pos: (k - 1) as nat, crc_input: st.crc_input.push(u[0]), ..st };
    lemma_padding_run(n, u.drop_first());
    if u.len() >= k && (forall|j: int| 0 <= j < k ==> u[j] == 0) {
        assert(forall|j: int| 0 <= j < k - 1 ==> u.drop_first()[j] == 0) by {
            assert forall|j: int| 0 <= j < k - 1 implies u.drop_first()[j] == 0 by {
                assert(u.drop_first()[j] == u[j + 1]);
            }
        }
        assert(n.crc_input + u.drop_first().take(k - 1) =~= st.crc_input + u.take(k as int));
        assert(u.drop_first().skip(k - 1) =~= u.skip(k as int));
    } else if u.len() >= k {
        let j = choose|j: int| 0 <= j < k && u[j] != 0;
        assert(j >= 1);
        assert(u.drop_first()[j - 1] != 0);
    }
}

/// From the end of the List of Records, at `p` in the field `s`: the decoder
/// ends the field where the buffer decoder accepts the padding and CRC32
/// that follow, and otherwise fails or asks for more.
proof fn lemma_tail_run(st: IndexCoderModel, s: Seq<u8>, p: nat)
    requires
        st.sequence == SEQ_PADDING_INIT,
        p <= s.len(),
        st.crc_input == s.take(p as int),
    ensures
        ({
            let pad = padding_of(st.pairs.len() as u64, list_of_pairs(st.pairs) as u64);
            let r = id_run(st, s.skip(p as int));
            if padding_zero(s, p, pad) && s.len() >= p + pad + 4 && s.subrange(
                (p + pad) as int,
                (p + pad + 4) as int,
            ) == le32_bytes(crc32_of(s.take((p + pad) as int), 0)) {
                r.1 == LZMA_STREAM_END && r.2 == pad + 4 && r.0.pairs == st.pairs
            } else {
                r.1 == LZMA_DATA_ERROR || r.1 == LZMA_OK
            }
        }),
{
    let pad = padding_of(st.pairs.len() as u64, list_of_pairs(st.pairs) as u64);
    let u = s.skip(p as int);
    if u.len() == 0 {
        return;
    }
    let ps = IndexCoderModel { pos: pad, sequence: SEQ_PADDING, ..st };
    assert(id_run(st, u) == id_run(ps, u));
    lemma_padding_run(ps, u);
    let zero = u.len() >= pad && (forall|j: int| 0 <= j < pad ==> u[j] == 0);
    assert(zero <==> padding_zero(s, p, pad)) by {
        if zero {
            assert forall|j: int| p <= j < p + pad implies s[j] == 0 by {
                assert(s[j] == u[j - p]);
            }
        }
        if padding_zero(s, p, pad) {
            assert forall|j: int| 0 <= j < pad implies u[j] == 0 by {
                assert(s[j + p] == u[j]);
            }
        }
    }
    if zero {
        let c = IndexCoderModel {
            sequence: SEQ_CRC32,
            pos: 0,
            crc_input: ps.crc_input + u.take(pad as int),
            ..ps
        };
        assert(c.crc_input =~= s.take((p + pad) as int));
        let v = u.skip(pad as int);
        assert(v =~= s.skip((p + pad) as int));
        lemma_crc_run(c, v);
        let want = le32_bytes(crc32_of(c.crc_input, 0));
        assert(want.skip(0) =~= want);
        if v.len() >= 4 {
            assert(v.take(4) =~= s.subrange((p + pad) as int, (p + pad + 4) as int));
        }
    }
}

/// The state after the last Record, the Blocks being `pairs` and the bytes
/// read `ci`.
pub open spec fn records_done_state(memlimit: u64, pairs: Seq<(u64, u64)>, ci: Seq<u8>) -> IndexCoderModel {
    IndexCoderModel {
        sequence: SEQ_PADDING_INIT,
        memlimit,
        pairs,
        count: 0,
        unpadded_size: pairs.last().0,
        uncompressed_size: pairs.last().1,
        pos: 0,
        crc_input: ci,
    }
}

/// From the start of a Record, at `p` in the field `s`: the decoder reads
/// the Records that the buffer decoder reads and goes on from the state
/// after them, and fails or asks for more where the buffer decoder rejects
/// them.
proof fn lemma_records_run(st: IndexCoderModel, s: Seq<u8>, p: nat)
    requires
        st.sequence == SEQ_UNPADDED,
        st.pos == 0,
        st.count > 0,
        p <= s.len(),
        st.crc_input == s.take(p as int),
    ensures
        ({
            let r = id_run(st, s.skip(p as int));
            match records_read(st.pairs, st.count as nat, s.skip(p as int)) {
                None => r.1 == LZMA_DATA_ERROR || r.1 == LZMA_OK,
                Some((pp, k)) => p + k <= s.len() && pp.len() > 0 && id_same_outcome(
                    r,
                    id_after(
                        id_run(
                            records_done_state(st.memlimit, pp, s.take((p + k) as int)),
                            s.skip((p + k) as int),
                        ),
                        k,
                    ),
                ),
            }
        }),
    decreases st.count,
{
    let t = s.skip(p as int);
    assert(vli_acc(st.unpadded_size, 0) == 0);
    lemma_vli_run_used(0, 0, t);
    if t.len() == 0 {
        return;
    }
    match vli_run(0, 0, t) {
        VliRun::Complete { value: u, used: a } => {
            if u < UNPADDED_SIZE_MIN || u > UNPADDED_SIZE_MAX {
                return;
            }
            let t1 = t.skip(a as int);
            let st1 = IndexCoderModel {
                unpadded_size: u,
                pos: 0,
                sequence: SEQ_UNCOMPRESSED,
                crc_input: st.crc_input + t.take(a as int),
                ..st
            };
            assert(id_run(st, t) == id_after(id_run(st1, t1), a));
            assert(vli_acc(st1.uncompressed_size, 0) == 0);
            lemma_vli_run_used(0, 0, t1);
            if t1.len() == 0 {
                return;
            }
            match vli_run(0, 0, t1) {
                VliRun::Complete { value: c, used: b } => {
                    if !pairs_append_ok(st.pairs, u, c) {
                        return;
                    }
                    let rem = (st.count - 1) as u64;
                    let np = st.pairs.push((u, c));
                    let p2 = p + a + b;
                    let st2 = IndexCoderModel {
                        uncompressed_size: c,
                        pairs: np,
                        count: rem,
                        pos: 0,
                        sequence: if rem == 0 {
                            SEQ_PADDING_INIT
                        } else {
                            SEQ_UNPADDED
                        },
                        crc_input: st1.crc_input + t1.take(b as int),
                        ..st1
                    };
                    assert(st2.crc_input =~= s.take(p2 as int));
                    assert(t1.skip(b as int) =~= s.skip(p2 as int));
                    assert(t.skip((a + b) as int) =~= s.skip(p2 as int));
                    assert(id_run(st1, t1) == id_after(id_run(st2, t1.skip(b as int)), b));
                    if rem == 0 {
                        assert(st2 == records_done_state(st.memlimit, np, s.take(p2 as int)));
                    } else {
                        lemma_records_run(st2, s, p2);
                    }
                },
                _ => {},
            }
        },
        _ => {},
    }
}

/// Reading `n` Records after `pairs` gives `n` more Blocks.
proof fn lemma_records_read_len(pairs: Seq<(u64, u64)>, n: nat, t: Seq<u8>)
    ensures
        records_read(pairs, n, t) matches Some((pp, k)) ==> pp.len() == pairs.len() + n && k
            <= t.len(),
    decreases n,
{
    if n > 0 {
        match vli_field(t) {
            Some((u, a)) => {
                lemma_vli_run_used(0, 0, t);
                match vli_field(t.skip(a as int)) {
                    Some((c, b)) => {
                        lemma_vli_run_used(0, 0, t.skip(a as int));
                        lemma_records_read_len(
                            pairs.push((u, c)),
                            (n - 1) as nat,
                            t.skip((a + b) as int),
                        );
                    },
                    None => {},
                }
            },
            None => {},
        }
    }
}

/// Decoding a whole buffer with the decoder agrees with the buffer decoder:
/// where the buffer decoder reads a complete Index field, the decoder ends
/// the field at the same length with the same Blocks; where the buffer
/// decoder fails, the decoder fails with the same error or, for a field cut
/// short, asks for more input.
pub proof fn law_index_decoders_agree(s: Seq<u8>, memlimit: u64)
    ensures
        ({
            let r = id_run(id_start(memlimit), s);
            match index_decode_result(s, memlimit) {
                Ok((pairs, len)) => r.1 == LZMA_STREAM_END && r.2 == len && r.0.pairs == pairs,
                Err(e) => r.1 == e || (e == LZMA_DATA_ERROR && r.1 == LZMA_OK),
            }
        }),
{
    let st0 = id_start(memlimit);
    if s.len() == 0 || s[0] != 0 {
        return;
    }
    let s1 = s.drop_first();
    let st1 = IndexCoderModel { sequence: SEQ_COUNT, crc_input: st0.crc_input.push(s[0]), ..st0 };
    assert(id_run(st0, s) == id_after(id_run(st1, s1), 1));
    assert(vli_acc(st1.count, st1.pos) == 0);
    lemma_vli_run_used(0, 0, s1);
    if s1.len() == 0 {
        return;
    }
    match vli_run(0, 0, s1) {
        VliRun::Complete { value: count, used: a } => {
            assert(st1.memlimit == effective_memlimit(memlimit));
            if memusage_spec(1, count) > st1.memlimit {
                return;
            }
            let p = 1 + a;
            let st2 = IndexCoderModel {
                count,
                pos: 0,
                sequence: if count == 0 {
                    SEQ_PADDING_INIT
                } else {
                    SEQ_UNPADDED
                },
                crc_input: st1.crc_input + s1.take(a as int),
                ..st1
            };
            assert(st2.crc_input =~= s.take(p as int));
            assert(s1.skip(a as int) =~= s.skip(p as int));
            assert(id_run(st1, s1) == id_after(id_run(st2, s.skip(p as int)), a));
            if count == 0 {
                assert(list_of_pairs(Seq::<(u64, u64)>::empty()) == 0);
                lemma_tail_run(st2, s, p);
            } else {
                lemma_records_run(st2, s, p);
                lemma_records_read_len(Seq::empty(), count as nat, s.skip(p as int));
                match records_read(Seq::empty(), count as nat, s.skip(p as int)) {
                    Some((pp, k)) => {
                        let ts = records_done_state(st2.memlimit, pp, s.take((p + k) as int));
                        lemma_tail_run(ts, s, p + k);
                    },
                    None => {},
                }
            }
        },
        _ => {},
    }
}

/// The Records read after `pairs` take as many bytes as their part of the
/// List of Records, which stays within the size an Index can have.
proof fn lemma_records_read_size(pairs: Seq<(u64, u64)>, n: nat, t: Seq<u8>)
    requires
        list_of_pairs(pairs) <= LZMA_BACKWARD_SIZE_MAX,
    ensures
        records_read(pairs, n, t) matches Some((pp, k)) ==> list_of_pairs(pp) == list_of_pairs(
            pairs,
        ) + k && list_of_pairs(pp) <= LZMA_BACKWARD_SIZE_MAX,
    decreases n,
{
    if n > 0 {
        crate::vli::lemma_vli_run_canonical(t);
        match vli_field(t) {
            Some((u, a)) => {
                crate::vli::lemma_vli_run_canonical(t.skip(a as int));
                match vli_field(t.skip(a as int)) {
                    Some((c, b)) => {
                        let np = pairs.push((u, c));
                        assert(np.drop_last() =~= pairs);
                        assert(np.last() == (u, c));
                        crate::vli::lemma_vli_size_bounds(u);
                        crate::vli::lemma_vli_size_bounds(c);
                        if pairs_append_ok(pairs, u, c) {
                            assert(list_of_pairs(np) <= LZMA_BACKWARD_SIZE_MAX) by {
                                let isz = index_size(
                                    (pairs.len() + 1) as u64,
                                    (list_of_pairs(pairs) + vli_size_spec(u) + vli_size_spec(
                                        c,
                                    )) as u64,
                                );
                                assert(isz <= LZMA_BACKWARD_SIZE_MAX);
                            }
                            lemma_records_read_size(np, (n - 1) as nat, t.skip((a + b) as int));
                        }
                    },
                    None => {},
                }
            },
            None => {},
        }
    }
}

/// A whole Index field read by the buffer decoder is exactly as long as
/// the Index of the Blocks it lists.
proof fn lemma_index_result_size(s: Seq<u8>, memlimit: u64)
    ensures
        index_decode_result(s, memlimit) matches Ok((pairs, len)) ==> len == index_size(
            pairs.len() as u64,
            list_of_pairs(pairs) as u64,
        ) && list_of_pairs(pairs) <= LZMA_BACKWARD_SIZE_MAX,
{
    if s.len() > 0 && s[0] == 0 {
        crate::vli::lemma_vli_run_canonical(s.drop_first());
        match vli_field(s.drop_first()) {
            Some((count, a)) => {
                let t = s.skip((1 + a) as int);
                assert(list_of_pairs(Seq::<(u64, u64)>::empty()) == 0);
                lemma_records_read_size(Seq::empty(), count as nat, t);
                lemma_records_read_len(Seq::empty(), count as nat, t);
                match records_read(Seq::empty(), count as nat, t) {
                    Some((pairs, b)) => {
                        let u = index_size_unpadded(count, list_of_pairs(pairs) as u64);
                        assert(u == 1 + a + b + 4);
                        assert(pairs.len() as u64 == count);
                    },
                    None => {},
                }
            },
            None => {},
        }
    }
}

/// A decoder that ends a field after exactly the bytes `fed` has read an
/// Index as long as the Index of the Blocks it holds.
pub proof fn lemma_decoded_size(memlimit: u64, fed: Seq<u8>)
    requires
        id_run(id_start(memlimit), fed).1 == LZMA_STREAM_END,
    ensures
        id_run(id_start(memlimit), fed).2 == index_size(
            id_run(id_start(memlimit), fed).0.pairs.len() as u64,
            list_of_pairs(id_run(id_start(memlimit), fed).0.pairs) as u64,
        ),
        list_of_pairs(id_run(id_start(memlimit), fed).0.pairs) <= LZMA_BACKWARD_SIZE_MAX,
{
    law_index_decoders_agree(fed, memlimit);
    lemma_index_result_size(fed, memlimit);
}

/// Number of bytes of the Index field the decoder has read.
pub open spec fn consumed_len(m: IndexCoderModel) -> int {
    m.crc_input.len() + if m.sequence == SEQ_CRC32 {
        m.pos as int
    } else {
        0
    }
}

/// The bytes read so far are as many as the fields decoded so far take,
/// each integer in its shortest form.
pub open spec fn size_ok(m: IndexCoderModel) -> bool {
    let n = m.pairs.len();
    let list = list_of_pairs(m.pairs);
    let head = 1 + vli_size_spec((n + m.count) as u64) + list;
    let pad = padding_of(n as u64, list as u64);
    &&& list <= LZMA_BACKWARD_SIZE_MAX
    &&& m.sequence >= SEQ_UNPADDED ==> n + m.count <= LZMA_VLI_MAX
    &&& if m.sequence == SEQ_INDICATOR {
        m.crc_input.len() == 0
    } else if m.sequence == SEQ_COUNT {
        m.crc_input.len() == 1 + m.pos
    } else if m.sequence == SEQ_UNPADDED {
        m.crc_input.len() == head + m.pos
    } else if m.sequence == SEQ_UNCOMPRESSED {
        m.crc_input.len() == head + vli_size_spec(m.unpadded_size) + m.pos
    } else if m.sequence == SEQ_PADDING_INIT {
        m.crc_input.len() == head
    } else if m.sequence == SEQ_PADDING {
        m.crc_input.len() == head + pad - m.pos && m.pos <= pad
    } else {
        m.crc_input.len() == head + pad
    }
}

/// A decoder that keeps its state consistent with the bytes it read keeps
/// it so over any input, and counts the bytes it reads.
pub proof fn lemma_id_run_size(st: IndexCoderModel, s: Seq<u8>)
    requires
        model_wf(st),
        size_ok(st),
    ensures
        ({
            let r = id_run(st, s);
            &&& (r.1 == LZMA_OK || r.1 == LZMA_STREAM_END) ==> model_wf(r.0) && size_ok(r.0)
                && consumed_len(r.0) == consumed_len(st) + r.2
            &&& r.1 == LZMA_STREAM_END ==> r.0.sequence == SEQ_CRC32 && r.0.pos == 4
        }),
    decreases s.len(), 7 - st.sequence, 1nat,
{
    if s.len() == 0 {
        return;
    }
    if st.sequence == SEQ_INDICATOR {
        if s[0] == 0 {
            let n = IndexCoderModel { sequence: SEQ_COUNT, crc_input: st.crc_input.push(s[0]), ..st };
            lemma_id_run_size(n, s.drop_first());
        }
        return;
    } else if st.sequence == SEQ_COUNT || st.sequence == SEQ_UNPADDED || st.sequence
        == SEQ_UNCOMPRESSED {
        lemma_id_run_size_vli(st, s);
        return;
    } else if st.sequence == SEQ_PADDING_INIT {
        let n = IndexCoderModel {
            pos: padding_of(st.pairs.len() as u64, list_of_pairs(st.pairs) as u64),
            sequence: SEQ_PADDING,
            ..st
        };
        lemma_id_run_size(n, s);
        return;
    } else if st.sequence == SEQ_PADDING {
        if st.pos > 0 {
            if s[0] == 0 {
                let n = IndexCoderModel {
                    pos: (st.pos - 1) as nat,
                    crc_input: st.crc_input.push(s[0]),
                    ..st
                };
                lemma_id_run_size(n, s.drop_first());
            }
        } else {
            lemma_id_run_size(IndexCoderModel { sequence: SEQ_CRC32, pos: 0, ..st }, s);
        }
        return;
    } else {
        let crc = crc32_of(st.crc_input, 0);
        if !(st.pos >= 4 || ((crc >> ((st.pos * 8) as u32)) & 0xff) != s[0] as u32) && !(st.pos
            + 1 >= 4) {
            lemma_id_run_size(IndexCoderModel { pos: st.pos + 1, ..st }, s.drop_first());
        }
    }
}

/// The part of `lemma_id_run_size` for the states that read an integer.
proof fn lemma_id_run_size_vli(st: IndexCoderModel, s: Seq<u8>)
    requires
        model_wf(st),
        size_ok(st),
        s.len() > 0,
        st.sequence == SEQ_COUNT || st.sequence == SEQ_UNPADDED || st.sequence == SEQ_UNCOMPRESSED,
    ensures
        ({
            let r = id_run(st, s);
            &&& (r.1 == LZMA_OK || r.1 == LZMA_STREAM_END) ==> model_wf(r.0) && size_ok(r.0)
                && consumed_len(r.0) == consumed_len(st) + r.2
            &&& r.1 == LZMA_STREAM_END ==> r.0.sequence == SEQ_CRC32 && r.0.pos == 4
        }),
    decreases s.len(), 7 - st.sequence, 0nat,
{
    let field = if st.sequence == SEQ_COUNT {
        st.count
    } else if st.sequence == SEQ_UNPADDED {
        st.unpadded_size
    } else {
        st.uncompressed_size
    };
    let acc = vli_acc(field, st.pos);
    if st.pos == 0 {
        crate::vli::lemma_vli_start_bound(s);
    }
    crate::vli::lemma_vli_run_canonical_from(acc, st.pos, s);
    lemma_vli_run_bound(acc, st.pos, s);
    lemma_vli_run_used(acc, st.pos, s);
    lemma_vli_run_concat(acc, st.pos, s, Seq::empty());
    assert(s + Seq::<u8>::empty() =~= s);
    match vli_run(acc, st.pos, s) {
        VliRun::Partial { value, pos } => {
            let r = id_run(st, s);
            assert(pos == st.pos + s.len());
            assert(pos <= 8);
            assert(r.0.crc_input == st.crc_input + s);
            assert(r.0.pos == pos);
            assert(model_wf(r.0));
            assert(size_ok(r.0));
            assert(consumed_len(r.0) == consumed_len(st) + r.2);
            return;
        },
        VliRun::Complete { value, used } => {
            let ci = st.crc_input + s.take(used as int);
            if st.sequence == SEQ_COUNT {
                if !(memusage_spec(1, value) > st.memlimit) {
                    let n = IndexCoderModel {
                        count: value,
                        pos: 0,
                        sequence: if value == 0 {
                            SEQ_PADDING_INIT
                        } else {
                            SEQ_UNPADDED
                        },
                        crc_input: ci,
                        ..st
                    };
                    assert(list_of_pairs(st.pairs) == 0);
                    lemma_id_run_size(n, s.skip(used as int));
                }
            } else if st.sequence == SEQ_UNPADDED {
                if !(value < UNPADDED_SIZE_MIN || value > UNPADDED_SIZE_MAX) {
                    let n = IndexCoderModel {
                        unpadded_size: value,
                        pos: 0,
                        sequence: SEQ_UNCOMPRESSED,
                        crc_input: ci,
                        ..st
                    };
                    lemma_id_run_size(n, s.skip(used as int));
                }
            } else if !(!pairs_append_ok(st.pairs, st.unpadded_size, value) || st.count == 0) {
                let rem = (st.count - 1) as u64;
                let np = st.pairs.push((st.unpadded_size, value));
                let n = IndexCoderModel {
                    uncompressed_size: value,
                    pairs: np,
                    count: rem,
                    pos: 0,
                    sequence: if rem == 0 {
                        SEQ_PADDING_INIT
                    } else {
                        SEQ_UNPADDED
                    },
                    crc_input: ci,
                    ..st
                };
                assert(np.drop_last() =~= st.pairs);
                assert(np.last() == (st.unpadded_size, value));
                crate::vli::lemma_vli_size_bounds(st.unpadded_size);
                crate::vli::lemma_vli_size_bounds(value);
                assert(list_of_pairs(np) <= LZMA_BACKWARD_SIZE_MAX) by {
                    let isz = index_size(
                        (st.pairs.len() + 1) as u64,
                        (list_of_pairs(st.pairs) + vli_size_spec(st.unpadded_size)
                            + vli_size_spec(value)) as u64,
                    );
                    assert(isz <= LZMA_BACKWARD_SIZE_MAX);
                }
                assert(np.len() + rem == st.pairs.len() + st.count);
                lemma_id_run_size(n, s.skip(used as int));
            }
        },
        VliRun::Corrupt { .. } => {},
    }
    return;
}

/// The decoder starts consistent with the no bytes it read.
pub proof fn lemma_start_size(memlimit: u64)
    ensures
        model_wf(id_start(memlimit)),
        size_ok(id_start(memlimit)),
        consumed_len(id_start(memlimit)) == 0,
{
    assert(list_of_pairs(Seq::<(u64, u64)>::empty()) == 0);
}

impl lzma_index_coder {
    /// A consistent decoder has a reachable state.
    pub proof fn lemma_model_wf(&self)
        requires
            self.wf(),
        ensures
            model_wf(self@),
    {
    }
}

} // verus!
