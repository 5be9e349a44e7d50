//! Copying between buffers that are filled and drained in pieces.
use vstd::prelude::*;

verus! {

/// Copies as many bytes as both sides allow from `input` at `*in_pos`
/// (up to `in_size`) to `out` at `*out_pos` (up to `out_size`), advances
/// both positions by that number and returns it. A position past its size
/// copies nothing.
pub fn lzma_bufcpy(
    input: &[u8],
    in_pos: &mut usize,
    in_size: usize,
    out: &mut [u8],
    out_pos: &mut usize,
    out_size: usize,
) -> (n: usize)
    requires
        in_size <= input@.len(),
        out_size <= old(out)@.len(),
    ensures
        final(out)@.len() == old(out)@.len(),
        if *old(in_pos) > in_size || *old(out_pos) > out_size {
            &&& n == 0
            &&& *final(in_pos) == *old(in_pos)
            &&& *final(out_pos) == *old(out_pos)
            &&& final(out)@ == old(out)@
        } else {
            let ip = *old(in_pos) as int;
            let op = *old(out_pos) as int;
            &&& n == (if in_size - ip < out_size - op {
                in_size - ip
            } else {
                out_size - op
            })
            &&& *final(in_pos) == ip + n
            &&& *final(out_pos) == op + n
            &&& final(out)@ == old(out)@.take(op) + input@.subrange(ip, ip + n) + old(out)@.skip(
                op + n,
            )
        },
{
    if *in_pos > in_size || *out_pos > out_size {
        return 0;
    }
    let in_avail = in_size - *in_pos;
    let out_avail = out_size - *out_pos;
    let copy_size = if in_avail < out_avail {
        in_avail
    } else {
        out_avail
    };
    let ghost o = out@;
    let ip = *in_pos;
    let op = *out_pos;
    let mut k: usize = 0;
    while k < copy_size
        invariant
            k <= copy_size,
            ip + copy_size <= in_size <= input@.len(),
            op + copy_size <= out_size <= o.len(),
            out@ == o.take(op as int) + input@.subrange(ip as int, ip + k) + o.skip(op + k),
        decreases copy_size - k,
    {
        out[op + k] = input[ip + k];
        k = k + 1;
        assert(out@ =~= o.take(op as int) + input@.subrange(ip as int, ip + k) + o.skip(op + k));
    }
    *in_pos = ip + copy_size;
    *out_pos = op + copy_size;
    copy_size
}

} // verus!
