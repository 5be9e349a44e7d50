//! The delta filter's encoder: each byte is replaced by its difference from
//! the byte `distance` positions before it.
use vstd::prelude::*;
use crate::filter::{LZMA_DELTA_DIST_MAX, LZMA_DELTA_DIST_MIN};

verus! {

/// Byte `k` of `data`, or 0 before its start.
pub open spec fn byte_or_zero(data: Seq<u8>, k: int) -> u8 {
    if 0 <= k < data.len() {
        data[k]
    } else {
        0
    }
}

/// What the delta encoder with distance `dist` outputs for `input` after it
/// has been fed `seen`.
pub open spec fn delta_encoded(seen: Seq<u8>, input: Seq<u8>, dist: int) -> Seq<u8> {
    let all = seen + input;
    Seq::new(
        input.len(),
        |i: int| ((input[i] - byte_or_zero(all, seen.len() + i - dist)) % 256) as u8,
    )
}

/// Slot of the history that holds the `k`-th latest byte when the write
/// position is `pos`.
pub open spec fn slot(pos: u8, k: int) -> int {
    (pos + k) % 256
}

/// State of the delta encoder.
#[allow(non_camel_case_types)]
pub struct lzma_delta_coder {
    distance: usize,
    pos: u8,
    history: [u8; 256],
    seen: Ghost<Seq<u8>>,
}

impl View for lzma_delta_coder {
    type V = Seq<u8>;

    /// The bytes fed so far.
    closed spec fn view(&self) -> Seq<u8> {
        self.seen@
    }
}

impl lzma_delta_coder {
    /// The distance of the coder.
    pub closed spec fn dist(&self) -> int {
        self.distance as int
    }

    /// The history holds the last 256 bytes fed (zeros before the first).
    pub closed spec fn wf(&self) -> bool {
        &&& LZMA_DELTA_DIST_MIN <= self.distance <= LZMA_DELTA_DIST_MAX
        &&& forall|k: int|
            1 <= k <= 256 ==> #[trigger] self.history@[slot(self.pos, k)] == byte_or_zero(
                self.seen@,
                self.seen@.len() - k,
            )
    }
}

/// A delta encoder with distance `dist` that has been fed nothing.
pub fn lzma_delta_coder_init(dist: u32) -> (r: lzma_delta_coder)
    requires
        LZMA_DELTA_DIST_MIN <= dist <= LZMA_DELTA_DIST_MAX,
    ensures
        r.wf(),
        r@ == Seq::<u8>::empty(),
        r.dist() == dist,
{
    lzma_delta_coder { distance: dist as usize, pos: 0, history: [0u8; 256], seen: Ghost(Seq::empty()) }
}

/// Feeds one byte: returns its difference from the byte `distance` before.
fn encode_byte(coder: &mut lzma_delta_coder, byte: u8) -> (r: u8)
    requires
        old(coder).wf(),
    ensures
        final(coder).wf(),
        final(coder).dist() == old(coder).dist(),
        final(coder)@ == old(coder)@.push(byte),
        r == ((byte - byte_or_zero(old(coder)@, old(coder)@.len() - old(coder).dist())) % 256) as u8,
{
    let ghost s0 = coder.seen@;
    let ghost p0 = coder.pos;
    let ghost h0 = coder.history@;
    let sum: usize = coder.distance + coder.pos as usize;
    let idx = sum & 0xff;
    proof {
        assert(sum & 0xff == sum % 256) by (bit_vector);
        assert(h0[slot(p0, coder.distance as int)] == byte_or_zero(s0, s0.len() - coder.distance));
    }
    let tmp = coder.history[idx];
    coder.history[coder.pos as usize] = byte;
    coder.pos = coder.pos.wrapping_sub(1);
    coder.seen = Ghost(s0.push(byte));
    proof {
        let p1 = coder.pos;
        assert(p1 == (p0 + 255) % 256);
        assert forall|k: int| 1 <= k <= 256 implies #[trigger] coder.history@[slot(coder.pos, k)]
            == byte_or_zero(coder.seen@, coder.seen@.len() - k) by {
            if k == 1 {
                assert(slot(p1, 1) == p0);
            } else {
                assert(slot(p1, k) == slot(p0, k - 1));
                assert(slot(p0, k - 1) != p0);
                assert(coder.history@[slot(p1, k)] == h0[slot(p0, k - 1)]);
            }
        }
    }
    byte.wrapping_sub(tmp)
}

/// Encodes `input` into `output`, of the same length, feeding its bytes to
/// the coder.
pub fn copy_and_encode(coder: &mut lzma_delta_coder, input: &[u8], output: &mut [u8])
    requires
        old(coder).wf(),
        input@.len() == old(output)@.len(),
    ensures
        final(coder).wf(),
        final(coder).dist() == old(coder).dist(),
        final(coder)@ == old(coder)@ + input@,
        final(output)@ == delta_encoded(old(coder)@, input@, old(coder).dist()),
{
    let ghost s0 = coder@;
    let n = input.len();
    let mut i: usize = 0;
    while i < n
        invariant
            n == input@.len(),
            n == output@.len(),
            i <= n,
            coder.wf(),
            coder.dist() == old(coder).dist(),
            coder@ == s0 + input@.take(i as int),
            forall|k: int| 0 <= k < i ==> #[trigger] output@[k] == delta_encoded(s0, input@, coder.dist())[k],
        decreases n - i,
    {
        let b = input[i];
        let ghost before = coder@;
        let e = encode_byte(coder, b);
        output[i] = e;
        proof {
            let all = s0 + input@;
            assert(before =~= all.take(s0.len() + i));
            assert(byte_or_zero(before, before.len() - coder.dist()) == byte_or_zero(
                all,
                s0.len() + i - coder.dist(),
            ));
            assert(coder@ =~= s0 + input@.take(i + 1));
        }
        i = i + 1;
    }
    assert(input@.take(n as int) =~= input@);
    assert(output@ =~= delta_encoded(s0, input@, coder.dist()));
}

/// Encodes `buffer` in place, feeding its bytes to the coder.
pub fn encode_in_place(coder: &mut lzma_delta_coder, buffer: &mut [u8])
    requires
        old(coder).wf(),
    ensures
        final(coder).wf(),
        final(coder).dist() == old(coder).dist(),
        final(coder)@ == old(coder)@ + old(buffer)@,
        final(buffer)@ == delta_encoded(old(coder)@, old(buffer)@, old(coder).dist()),
{
    let ghost s0 = coder@;
    let ghost b0 = buffer@;
    let n = buffer.len();
    let mut i: usize = 0;
    while i < n
        invariant
            n == buffer@.len(),
            n == b0.len(),
            i <= n,
            coder.wf(),
            coder.dist() == old(coder).dist(),
            coder@ == s0 + b0.take(i as int),
            forall|k: int| i <= k < n ==> #[trigger] buffer@[k] == b0[k],
            forall|k: int| 0 <= k < i ==> #[trigger] buffer@[k] == delta_encoded(s0, b0, coder.dist())[k],
        decreases n - i,
    {
        let b = buffer[i];
        let ghost before = coder@;
        let e = encode_byte(coder, b);
        buffer[i] = e;
        proof {
            let all = s0 + b0;
            assert(before =~= all.take(s0.len() + i));
            assert(byte_or_zero(before, before.len() - coder.dist()) == byte_or_zero(
                all,
                s0.len() + i - coder.dist(),
            ));
            assert(coder@ =~= s0 + b0.take(i + 1));
        }
        i = i + 1;
    }
    assert(b0.take(n as int) =~= b0);
    assert(buffer@ =~= delta_encoded(s0, b0, coder.dist()));
}

} // verus!
