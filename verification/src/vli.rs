//! Variable-length integers of the .xz format: seven bits per byte, least
//! significant group first, the high bit of every byte but the last set.
use vstd::prelude::*;
use crate::types::{
    LZMA_BUF_ERROR, LZMA_DATA_ERROR, LZMA_OK, LZMA_PROG_ERROR, LZMA_STREAM_END, LZMA_VLI_BYTES_MAX,
    LZMA_VLI_MAX,
};

verus! {

/// The bytes that encode `v`.
pub open spec fn vli_encoding(v: u64) -> Seq<u8>
    decreases v,
{
    if v < 0x80 {
        seq![v as u8]
    } else {
        proof {
            assert(v >= 0x80 ==> (v >> 7u64) < v) by (bit_vector);
        }
        seq![(v as u8) | 0x80u8] + vli_encoding(v >> 7u64)
    }
}

/// How a run of the decoder over some input ends.
pub enum VliRun {
    /// The input ran out: the partial value and the number of bytes of the
    /// integer read so far.
    Partial { value: u64, pos: nat },
    /// The integer is complete: its value and how many bytes of the input it
    /// took.
    Complete { value: u64, used: nat },
    /// The input is not a valid integer: the state and how many bytes of the
    /// input were read, the offending byte included.
    Corrupt { value: u64, pos: nat, used: nat },
}

/// The value after adding the seven payload bits of `b` as the `k`-th group.
pub open spec fn vli_add_group(acc: u64, k: nat, b: u8) -> u64 {
    (acc + (((b & 0x7f) as u64) << ((k * 7) as u64))) as u64
}

/// `r` with `d` more bytes of input counted as used.
pub open spec fn vli_run_after(r: VliRun, d: nat) -> VliRun {
    match r {
        VliRun::Partial { value, pos } => VliRun::Partial { value, pos },
        VliRun::Complete { value, used } => VliRun::Complete { value, used: used + d },
        VliRun::Corrupt { value, pos, used } => VliRun::Corrupt { value, pos, used: used + d },
    }
}

/// Runs the decoder from the state (`acc`, `k`), with `k` bytes of the
/// integer already read, over the bytes of `s`.
pub open spec fn vli_run(acc: u64, k: nat, s: Seq<u8>) -> VliRun
    decreases s.len(),
{
    if s.len() == 0 {
        VliRun::Partial { value: acc, pos: k }
    } else {
        let b = s[0];
        let a2 = vli_add_group(acc, k, b);
        if b & 0x80 == 0 {
            if b == 0 && k > 0 {
                VliRun::Corrupt { value: a2, pos: k + 1, used: 1 }
            } else {
                VliRun::Complete { value: a2, used: 1 }
            }
        } else if k + 1 == LZMA_VLI_BYTES_MAX {
            VliRun::Corrupt { value: a2, pos: k + 1, used: 1 }
        } else {
            vli_run_after(vli_run(a2, k + 1, s.drop_first()), 1)
        }
    }
}

/// Number of bytes `lzma_vli_encode` writes for `v`, or 0 when `v` is larger
/// than `LZMA_VLI_MAX`.
pub open spec fn vli_size_spec(v: u64) -> nat {
    if v > LZMA_VLI_MAX { 0 } else { vli_encoding(v).len() }
}

proof fn lemma_shift_step(v: u64, k: u64)
    requires
        1 <= k <= 9,
    ensures
        (v >> 7u64) >> ((k - 1) * 7) as u64 == v >> (k * 7) as u64,
{
    assert(1 <= k <= 9 ==> (v >> 7u64) >> ((k - 1) * 7) as u64 == v >> (k * 7) as u64)
        by (bit_vector);
}

/// Bytes from the `k`-th on encode the value shifted right by `7 k`.
proof fn lemma_encoding_skip(v: u64, k: nat)
    requires
        k < vli_encoding(v).len(),
        k <= 8,
    ensures
        vli_encoding(v).skip(k as int) == vli_encoding(v >> ((k * 7) as u64)),
    decreases k,
{
    if k == 0 {
        assert(v >> 0u64 == v) by (bit_vector);
        assert(vli_encoding(v).skip(0) == vli_encoding(v));
    } else {
        assert(v >= 0x80);
        let w = v >> 7u64;
        lemma_encoding_skip(w, (k - 1) as nat);
        assert(vli_encoding(v).skip(k as int) == vli_encoding(w).skip(k - 1));
        lemma_shift_step(v, k as u64);
    }
}

/// Values that fit in `7 n` bits take at most `n` bytes.
pub proof fn lemma_encoding_len(v: u64, n: nat)
    requires
        1 <= n <= 9,
        v >> ((n * 7) as u64) == 0,
    ensures
        1 <= vli_encoding(v).len() <= n,
    decreases n,
{
    if v >= 0x80 {
        assert(v >= 0x80 ==> v >> 7u64 != 0) by (bit_vector);
        if n == 1 {
            assert(false);
        }
        lemma_shift_step(v, n as u64);
        lemma_encoding_len(v >> 7u64, (n - 1) as nat);
    }
}

/// Every value up to `LZMA_VLI_MAX` takes between one and nine bytes.
pub proof fn lemma_vli_size_bounds(v: u64)
    requires
        v <= LZMA_VLI_MAX,
    ensures
        1 <= vli_encoding(v).len() <= LZMA_VLI_BYTES_MAX,
{
    assert(v <= 0x7fff_ffff_ffff_ffffu64 ==> v >> 63u64 == 0) by (bit_vector);
    lemma_encoding_len(v, 9);
}

/// Returns the number of bytes needed to encode `vli`, or 0 when `vli` is
/// larger than `LZMA_VLI_MAX`.
pub fn lzma_vli_size(vli: u64) -> (r: u32)
    ensures
        r == vli_size_spec(vli),
        vli <= LZMA_VLI_MAX ==> 1 <= r <= LZMA_VLI_BYTES_MAX,
{
    if vli > LZMA_VLI_MAX {
        return 0;
    }
    proof {
        lemma_vli_size_bounds(vli);
    }
    let mut v = vli;
    let mut i: u32 = 1;
    while v >= 0x80
        invariant
            1 <= i <= 9,
            i + vli_encoding(v).len() - 1 == vli_encoding(vli).len(),
            vli_encoding(vli).len() <= 9,
        decreases v,
    {
        assert(v >= 0x80 ==> (v >> 7u64) < v) by (bit_vector);
        v = v >> 7u64;
        assert(vli_encoding(v).len() >= 1);
        i = i + 1;
    }
    i
}

/// Encodes `vli` into `out`, starting at `*out_pos` and advancing it.
///
/// With `vli_pos` set to `None` (single-call mode) the whole integer must fit
/// in what is left of `out`: `LZMA_OK` on success, `LZMA_PROG_ERROR` otherwise
/// (with what fit already written). With `Some(pos)` the call continues an
/// encoding of which `*pos` bytes are already out: it writes what fits and
/// returns `LZMA_STREAM_END` once the last byte is out, `LZMA_OK` when `out`
/// filled up first and `LZMA_BUF_ERROR` when `out` had no room at all.
pub fn lzma_vli_encode(vli: u64, vli_pos: Option<&mut usize>, out: &mut [u8], out_pos: &mut usize)
    -> (ret: u32)
    ensures
        final(out)@.len() == old(out)@.len(),
        ({
            let start = *old(out_pos);
            let len = old(out)@.len();
            let enc = vli_encoding(vli);
            match vli_pos {
                None => {
                    if start >= len || vli > LZMA_VLI_MAX {
                        &&& ret == LZMA_PROG_ERROR
                        &&& *final(out_pos) == start
                        &&& final(out)@ == old(out)@
                    } else if start + enc.len() <= len {
                        &&& ret == LZMA_OK
                        &&& *final(out_pos) == start + enc.len()
                        &&& final(out)@ == old(out)@.take(start as int) + enc + old(out)@.skip(
                            start + enc.len(),
                        )
                    } else {
                        &&& ret == LZMA_PROG_ERROR
                        &&& *final(out_pos) == len
                        &&& final(out)@ == old(out)@.take(start as int) + enc.take(len - start)
                    }
                },
                Some(p) => {
                    let pos = *p;
                    let rest = vli_encoding(vli >> ((pos * 7) as u64));
                    let n = if rest.len() <= len - start {
                        rest.len()
                    } else {
                        (len - start) as nat
                    };
                    if start >= len {
                        &&& ret == LZMA_BUF_ERROR
                        &&& *final(out_pos) == start
                        &&& final(out)@ == old(out)@
                        &&& *final(p) == pos
                    } else if pos >= LZMA_VLI_BYTES_MAX || vli > LZMA_VLI_MAX {
                        &&& ret == LZMA_PROG_ERROR
                        &&& *final(out_pos) == start
                        &&& final(out)@ == old(out)@
                        &&& *final(p) == pos
                    } else {
                        &&& pos < enc.len() ==> rest == enc.skip(pos as int)
                        &&& *final(out_pos) == start + n
                        &&& *final(p) == pos + n
                        &&& final(out)@ == old(out)@.take(start as int) + rest.take(n as int)
                            + old(out)@.skip(start + n)
                        &&& ret == (if n == rest.len() {
                            LZMA_STREAM_END
                        } else {
                            LZMA_OK
                        })
                    }
                },
            }
        }),
{
    let out_size = out.len();
    let single_call = vli_pos.is_none();
    let mut pos: usize = match &vli_pos {
        Some(p) => **p,
        None => 0,
    };
    let ghost pos0 = pos;
    let ghost start = *out_pos;
    let ghost out0 = out@;
    if *out_pos >= out_size {
        return if single_call {
            LZMA_PROG_ERROR
        } else {
            LZMA_BUF_ERROR
        };
    }
    if pos >= LZMA_VLI_BYTES_MAX || vli > LZMA_VLI_MAX {
        return LZMA_PROG_ERROR;
    }
    proof {
        lemma_vli_size_bounds(vli);
        if pos < vli_encoding(vli).len() {
            lemma_encoding_skip(vli, pos as nat);
        }
        assert(vli >> 0u64 == vli) by (bit_vector);
    }
    let mut v = vli >> ((pos * 7) as u64);
    let ghost rest = vli_encoding(v);
    proof {
        assert(rest.skip(0) == rest);
        let sh = (pos * 7) as u64;
        assert(vli >> sh <= vli) by (bit_vector);
        lemma_vli_size_bounds(v);
    }
    let mut filled = false;
    while v >= 0x80 && !filled
        invariant
            single_call ==> pos0 == 0,
            single_call ==> rest == vli_encoding(vli),
            pos0 <= pos,
            pos0 < 9,
            rest.len() <= 9,
            pos - pos0 < rest.len(),
            vli_encoding(v) == rest.skip(pos - pos0),
            start <= *out_pos <= out_size,
            filled <==> *out_pos == out_size,
            *out_pos - start == pos - pos0,
            out_size == out@.len(),
            out0.len() == out_size,
            out@ == out0.take(start as int) + rest.take(pos - pos0) + out0.skip(*out_pos as int),
        decreases v,
    {
        let op = *out_pos;
        let ghost k = pos - pos0;
        assert(rest.skip(k)[0] == rest[k]);
        out[op] = (v as u8) | 0x80u8;
        pos = pos + 1;
        assert(v >= 0x80 ==> (v >> 7u64) < v) by (bit_vector);
        v = v >> 7u64;
        *out_pos = op + 1;
        assert(rest.skip(k).skip(1) == rest.skip(k + 1));
        assert(vli_encoding(v).len() >= 1);
        assert(out@ == out0.take(start as int) + rest.take(pos - pos0) + out0.skip(
            *out_pos as int,
        ));
        if *out_pos == out_size {
            filled = true;
        }
    }
    if filled {
        assert(out0.skip(out_size as int).len() == 0);
        match vli_pos {
            Some(p) => {
                *p = pos;
            },
            None => {},
        }
        return if single_call {
            LZMA_PROG_ERROR
        } else {
            LZMA_OK
        };
    }
    let op = *out_pos;
    let ghost k = pos - pos0;
    assert(rest.skip(k)[0] == rest[k]);
    out[op] = v as u8;
    *out_pos = op + 1;
    pos = pos + 1;
    assert(rest.skip(k).len() == 1);
    assert(rest.take(pos - pos0) == rest);
    assert(out@ == out0.take(start as int) + rest.take(pos - pos0) + out0.skip(*out_pos as int));
    match vli_pos {
        Some(p) => {
            *p = pos;
        },
        None => {},
    }
    if single_call {
        LZMA_OK
    } else {
        LZMA_STREAM_END
    }
}

proof fn lemma_add_group(acc: u64, k: u64, b: u8)
    requires
        k <= 8,
        acc >> (k * 7) == 0,
    ensures
        acc + (((b & 0x7f) as u64) << (k * 7)) <= u64::MAX,
        ((acc + (((b & 0x7f) as u64) << (k * 7))) as u64) >> ((k + 1) * 7) == 0,
{
    assert(k <= 8 && acc >> (k * 7) == 0 ==> acc + (((b & 0x7f) as u64) << (k * 7)) <= u64::MAX
        && ((acc + (((b & 0x7f) as u64) << (k * 7))) as u64) >> ((k + 1) * 7) == 0)
        by (bit_vector);
}

/// Decodes a variable-length integer from `input`, starting at `*in_pos` and
/// advancing it past the bytes read.
///
/// With `vli_pos` set to `None` (single-call mode) the whole integer must be
/// in the input: `LZMA_OK` when it is, `LZMA_DATA_ERROR` when the input runs
/// out or the bytes are not a valid integer. With `Some(pos)` the call
/// continues a decoding of which `*pos` bytes were read, the partial value
/// being `*vli`: it returns `LZMA_STREAM_END` once the integer is complete,
/// `LZMA_OK` when the input ran out first, `LZMA_BUF_ERROR` when there was no
/// input at all, `LZMA_DATA_ERROR` on an invalid integer and
/// `LZMA_PROG_ERROR` when the state it was handed is impossible.
pub fn lzma_vli_decode(vli: &mut u64, vli_pos: Option<&mut usize>, input: &[u8], in_pos: &mut usize)
    -> (ret: u32)
    ensures
        ({
            let start = *old(in_pos);
            let len = input@.len();
            match vli_pos {
                None => {
                    if start >= len {
                        ret == LZMA_DATA_ERROR && *final(vli) == 0 && *final(in_pos) == start
                    } else {
                        match vli_run(0, 0, input@.skip(start as int)) {
                            VliRun::Complete { value, used } => ret == LZMA_OK && *final(vli)
                                == value && *final(in_pos) == start + used,
                            VliRun::Partial { value, pos } => ret == LZMA_DATA_ERROR && *final(vli) == value && *final(in_pos) == len,
                            VliRun::Corrupt { value, pos, used } => ret == LZMA_DATA_ERROR
                                && *final(vli) == value && *final(in_pos) == start + used,
                        }
                    }
                },
                Some(p) => {
                    let pos = *p;
                    let acc = if pos == 0 { 0 } else { *old(vli) };
                    if pos >= LZMA_VLI_BYTES_MAX || acc >> ((pos * 7) as u64) != 0 {
                        &&& ret == LZMA_PROG_ERROR
                        &&& *final(vli) == acc
                        &&& *final(p) == pos
                        &&& *final(in_pos) == start
                    } else if start >= len {
                        &&& ret == LZMA_BUF_ERROR
                        &&& *final(vli) == acc
                        &&& *final(p) == pos
                        &&& *final(in_pos) == start
                    } else {
                        match vli_run(acc, pos as nat, input@.skip(start as int)) {
                            VliRun::Complete { value, used } => {
                                &&& ret == LZMA_STREAM_END
                                &&& *final(vli) == value
                                &&& *final(p) == pos + used
                                &&& *final(in_pos) == start + used
                            },
                            VliRun::Partial { value, pos: k } => {
                                &&& ret == LZMA_OK
                                &&& *final(vli) == value
                                &&& *final(p) == k
                                &&& *final(in_pos) == len
                            },
                            VliRun::Corrupt { value, pos: k, used } => {
                                &&& ret == LZMA_DATA_ERROR
                                &&& *final(vli) == value
                                &&& *final(p) == k
                                &&& *final(in_pos) == start + used
                            },
                        }
                    }
                },
            }
        }),
{
    let in_size = input.len();
    let single_call = vli_pos.is_none();
    let mut pos: usize = match &vli_pos {
        Some(p) => **p,
        None => 0,
    };
    let ghost start = *in_pos;
    if single_call {
        *vli = 0;
        if *in_pos >= in_size {
            return LZMA_DATA_ERROR;
        }
    } else {
        if pos == 0 {
            *vli = 0;
        }
        if pos >= LZMA_VLI_BYTES_MAX || *vli >> ((pos * 7) as u64) != 0 {
            return LZMA_PROG_ERROR;
        }
        if *in_pos >= in_size {
            return LZMA_BUF_ERROR;
        }
    }
    proof {
        assert(0u64 >> 0u64 == 0) by (bit_vector);
    }
    let ghost acc0 = *vli;
    let ghost pos0 = pos;
    let ghost s0 = input@.skip(start as int);
    let ghost whole = vli_run(acc0, pos0 as nat, s0);
    let mut ret: u32 = 0;
    let mut done = false;
    while *in_pos < in_size && !done
        invariant
            start < in_size,
            in_size == input@.len(),
            s0 == input@.skip(start as int),
            whole == vli_run(acc0, pos0 as nat, s0),
            single_call ==> pos0 == 0 && acc0 == 0,
            pos0 <= pos,
            start <= *in_pos <= in_size,
            *in_pos - start == pos - pos0,
            !done ==> pos < LZMA_VLI_BYTES_MAX,
            !done ==> *vli >> ((pos * 7) as u64) == 0,
            !done ==> whole == vli_run_after(
                vli_run(*vli, pos as nat, input@.skip(*in_pos as int)),
                (*in_pos - start) as nat,
            ),
            done ==> match whole {
                VliRun::Complete { value, used } => ret == (if single_call {
                    LZMA_OK
                } else {
                    LZMA_STREAM_END
                }) && *vli == value && pos == pos0 + used && *in_pos == start + used,
                VliRun::Corrupt { value, pos: k, used } => ret == LZMA_DATA_ERROR && *vli == value
                    && pos == k && *in_pos == start + used,
                VliRun::Partial { .. } => false,
            },
        decreases in_size - *in_pos,
    {
        let ghost rest = input@.skip(*in_pos as int);
        let byte = input[*in_pos];
        *in_pos = *in_pos + 1;
        proof {
            lemma_add_group(*vli, pos as u64, byte);
            assert(rest.drop_first() == input@.skip(*in_pos as int));
        }
        *vli = *vli + (((byte & 0x7f) as u64) << ((pos * 7) as u64));
        pos = pos + 1;
        if byte & 0x80 == 0 {
            if byte == 0 && pos > 1 {
                ret = LZMA_DATA_ERROR;
            } else {
                ret = if single_call {
                    LZMA_OK
                } else {
                    LZMA_STREAM_END
                };
            }
            done = true;
        } else if pos == LZMA_VLI_BYTES_MAX {
            ret = LZMA_DATA_ERROR;
            done = true;
        }
    }
    match vli_pos {
        Some(p) => {
            *p = pos;
        },
        None => {},
    }
    if done {
        return ret;
    }
    proof {
        assert(input@.skip(in_size as int).len() == 0);
    }
    if single_call {
        LZMA_DATA_ERROR
    } else {
        LZMA_OK
    }
}

/// A run that ends reads at least one byte and no more than there are.
pub proof fn lemma_vli_run_used(acc: u64, k: nat, s: Seq<u8>)
    ensures
        match vli_run(acc, k, s) {
            VliRun::Partial { .. } => true,
            VliRun::Complete { used, .. } => 1 <= used <= s.len(),
            VliRun::Corrupt { used, .. } => 1 <= used <= s.len(),
        },
    decreases s.len(),
{
    if s.len() > 0 {
        let b = s[0];
        if !(b & 0x80 == 0) && k + 1 != LZMA_VLI_BYTES_MAX {
            lemma_vli_run_used(vli_add_group(acc, k, b), k + 1, s.drop_first());
        }
    }
}

/// Running over two pieces of input: a run that ends within the first piece
/// ends the same way; one that reads all of it goes on over the second from
/// where it stopped.
pub proof fn lemma_vli_run_concat(acc: u64, k: nat, a: Seq<u8>, b: Seq<u8>)
    ensures
        vli_run(acc, k, a + b) == (match vli_run(acc, k, a) {
            VliRun::Partial { value, pos } => vli_run_after(vli_run(value, pos, b), a.len()),
            r => r,
        }),
        vli_run(acc, k, a) matches VliRun::Partial { value, pos } ==> pos == k + a.len()
            && (a.len() == 0 ==> value == acc),
    decreases a.len(),
{
    if a.len() == 0 {
        assert(a + b =~= b);
        match vli_run(acc, k, b) {
            VliRun::Partial { value, pos } => {},
            VliRun::Complete { value, used } => {},
            VliRun::Corrupt { value, pos, used } => {},
        }
    } else {
        let x = a[0];
        assert((a + b)[0] == x);
        assert((a + b).drop_first() =~= a.drop_first() + b);
        if !(x & 0x80 == 0) && k + 1 != LZMA_VLI_BYTES_MAX {
            let a2 = vli_add_group(acc, k, x);
            lemma_vli_run_concat(a2, k + 1, a.drop_first(), b);
            match vli_run(a2, k + 1, a.drop_first()) {
                VliRun::Partial { value, pos } => {
                    match vli_run(value, pos, b) {
                        VliRun::Partial { .. } => {},
                        VliRun::Complete { value, used } => {},
                        VliRun::Corrupt { value, pos, used } => {},
                    }
                },
                _ => {},
            }
        }
    }
}

/// A run from the start of an integer: its value fits in the bits read.
pub proof fn lemma_vli_start_bound(s: Seq<u8>)
    ensures
        0u64 >> 0u64 == 0,
        match vli_run(0, 0, s) {
            VliRun::Partial { value, pos } => pos <= 8 && value >> ((pos * 7) as u64) == 0,
            VliRun::Complete { value, .. } => value <= LZMA_VLI_MAX,
            VliRun::Corrupt { .. } => true,
        },
{
    assert(0u64 >> 0u64 == 0) by (bit_vector);
    lemma_vli_run_bound(0, 0, s);
}

/// A run from a state whose value fits in its `7 k` bits keeps its values
/// within the bits read so far: a complete value is at most `LZMA_VLI_MAX`.
pub proof fn lemma_vli_run_bound(acc: u64, k: nat, s: Seq<u8>)
    requires
        k <= 8,
        acc >> ((k * 7) as u64) == 0,
    ensures
        match vli_run(acc, k, s) {
            VliRun::Partial { value, pos } => pos <= 8 && value >> ((pos * 7) as u64) == 0,
            VliRun::Complete { value, .. } => value <= LZMA_VLI_MAX,
            VliRun::Corrupt { .. } => true,
        },
    decreases s.len(),
{
    if s.len() > 0 {
        let b = s[0];
        let a2 = vli_add_group(acc, k, b);
        let kk = k as u64;
        assert(kk <= 8 && acc >> (kk * 7) == 0 ==> ((acc + (((b & 0x7f) as u64) << (kk * 7)))
            as u64) >> ((kk + 1) * 7) == 0 && acc + (((b & 0x7f) as u64) << (kk * 7)) <= u64::MAX)
            by (bit_vector);
        assert(a2 >> (((k + 1) * 7) as u64) == 0);
        assert(kk <= 8 && a2 >> ((kk + 1) * 7) == 0 ==> a2 <= 0x7fff_ffff_ffff_ffffu64)
            by (bit_vector);
        if !(b & 0x80 == 0) && k + 1 != LZMA_VLI_BYTES_MAX {
            lemma_vli_run_bound(a2, k + 1, s.drop_first());
        }
    }
}

proof fn lemma_run_encoding(v: u64, k: nat, rest: Seq<u8>)
    requires
        v <= LZMA_VLI_MAX,
        k <= 8,
        k > 0 ==> (v >> ((k * 7) as u64)) > 0,
        k + vli_encoding(v >> ((k * 7) as u64)).len() <= 9,
    ensures
        vli_run(
            (v - ((v >> ((k * 7) as u64)) << ((k * 7) as u64))) as u64,
            k,
            vli_encoding(v >> ((k * 7) as u64)) + rest,
        ) == (VliRun::Complete { value: v, used: vli_encoding(v >> ((k * 7) as u64)).len() }),
    decreases 9 - k,
{
    let sh = (k * 7) as u64;
    let w = v >> sh;
    let acc = (v - (w << sh)) as u64;
    let s = vli_encoding(w) + rest;
    assert(sh <= 56 ==> (v >> sh) << sh <= v) by (bit_vector);
    if w < 0x80 {
        let b = w as u8;
        assert(s[0] == b);
        assert(w < 0x80 ==> (w as u8) & 0x80u8 == 0 && (((w as u8) & 0x7fu8) as u64) == w)
            by (bit_vector);
        assert(sh <= 56 && w == v >> sh ==> v - (w << sh) + (w << sh) == v) by (bit_vector);
        assert(k > 0 ==> w > 0);
        assert(vli_add_group(acc, k, b) == v);
        assert(s.len() >= 1);
    } else {
        let b = (w as u8) | 0x80u8;
        assert(s[0] == b);
        assert(((w as u8) | 0x80u8) & 0x80u8 != 0 && ((((w as u8) | 0x80u8) & 0x7fu8) as u64) == w
            & 0x7f) by (bit_vector);
        let sh2 = ((k + 1) * 7) as u64;
        assert(sh <= 56 && sh2 == sh + 7 && w == v >> sh ==> v - (w << sh) + ((w & 0x7f) << sh)
            == v - ((v >> sh2) << sh2)) by (bit_vector);
        assert((w >= 0x80 ==> w >> 7u64 > 0) && (sh <= 56 && sh2 == sh + 7 ==> (v >> sh) >> 7u64
            == v >> sh2)) by (bit_vector);
        assert(vli_encoding(w).len() == 1 + vli_encoding(w >> 7u64).len());
        assert(s.drop_first() == vli_encoding(w >> 7u64) + rest);
        lemma_run_encoding(v, k + 1, rest);
    }
}

/// A value fits in the seven bits per byte of its encoding.
proof fn lemma_encoding_fits(v: u64)
    requires
        v <= LZMA_VLI_MAX,
    ensures
        v >> ((7 * vli_encoding(v).len()) as u64) == 0,
    decreases v,
{
    if v < 0x80 {
        assert(v < 0x80 ==> v >> 7u64 == 0) by (bit_vector);
    } else {
        let w = v >> 7u64;
        assert(v >= 0x80 ==> (v >> 7u64) < v) by (bit_vector);
        lemma_encoding_fits(w);
        lemma_vli_size_bounds(w);
        lemma_vli_size_bounds(v);
        assert(vli_encoding(v).len() == 1 + vli_encoding(w).len());
        lemma_shift_step(v, (vli_encoding(w).len() + 1) as u64);
    }
}

/// A complete integer read from the state (`acc`, `k`) fits in the bits of
/// the bytes read, and its last byte, past the first, is not zero.
proof fn lemma_vli_run_complete_bits(acc: u64, k: nat, s: Seq<u8>)
    requires
        k <= 8,
        acc >> ((k * 7) as u64) == 0,
    ensures
        vli_run(acc, k, s) matches VliRun::Complete { value, used } ==> k + used <= 9 && value >> ((
        (k + used) * 7) as u64) == 0 && (k + used >= 2 ==> value >> (((k + used - 1) * 7) as u64)
            != 0),
    decreases s.len(),
{
    if s.len() > 0 {
        let b = s[0];
        let a2 = vli_add_group(acc, k, b);
        let kk = k as u64;
        assert(kk <= 8 && acc >> (kk * 7) == 0 ==> ((acc + (((b & 0x7f) as u64) << (kk * 7)))
            as u64) >> ((kk + 1) * 7) == 0 && ((b & 0x7f) != 0 ==> ((acc + (((b & 0x7f) as u64)
            << (kk * 7))) as u64) >> (kk * 7) != 0) && (b & 0x80 == 0 ==> b & 0x7f == b))
            by (bit_vector);
        if !(b & 0x80 == 0) && k + 1 != LZMA_VLI_BYTES_MAX {
            lemma_vli_run_complete_bits(a2, k + 1, s.drop_first());
        }
    }
}

/// A complete integer read from the state (`acc`, `k`) is in its shortest
/// form: its `k` bytes read before and those read now are as many as its
/// encoding has.
pub proof fn lemma_vli_run_canonical_from(acc: u64, k: nat, s: Seq<u8>)
    requires
        k <= 8,
        acc >> ((k * 7) as u64) == 0,
    ensures
        vli_run(acc, k, s) matches VliRun::Complete { value, used } ==> k + used == vli_size_spec(
            value,
        ) && value <= LZMA_VLI_MAX,
{
    lemma_vli_run_bound(acc, k, s);
    lemma_vli_run_complete_bits(acc, k, s);
    lemma_vli_run_used(acc, k, s);
    match vli_run(acc, k, s) {
        VliRun::Complete { value, used } => {
            let n = k + used;
            lemma_encoding_len(value, n);
            lemma_encoding_fits(value);
            let m = vli_encoding(value).len();
            if m < n {
                let a = (7 * m) as u64;
                let b = ((n - 1) * 7) as u64;
                assert(a <= b && b <= 63 && value >> a == 0 ==> value >> b == 0) by (bit_vector);
            }
        },
        _ => {},
    }
}

/// A complete integer read from the start is in its shortest form: it
/// takes as many bytes as its encoding.
pub proof fn lemma_vli_run_canonical(s: Seq<u8>)
    ensures
        vli_run(0, 0, s) matches VliRun::Complete { value, used } ==> used == vli_size_spec(value)
            && value <= LZMA_VLI_MAX,
{
    lemma_vli_start_bound(s);
    lemma_vli_run_canonical_from(0, 0, s);
}

/// Decoding the encoding of a value, whatever follows it, gives the value
/// back and uses exactly the bytes of the encoding.
pub proof fn law_vli_roundtrip(v: u64, rest: Seq<u8>)
    requires
        v <= LZMA_VLI_MAX,
    ensures
        vli_run(0, 0, vli_encoding(v) + rest) == (VliRun::Complete {
            value: v,
            used: vli_encoding(v).len(),
        }),
{
    lemma_vli_size_bounds(v);
    assert(v >> 0u64 == v && (v >> 0u64) << 0u64 == v) by (bit_vector);
    lemma_run_encoding(v, 0, rest);
}

} // verus!
