//! SHA-256 (FIPS 180-4), the strongest integrity check of the .xz format and
//! the hash the Index hash compares lists of Blocks with.
use vstd::prelude::*;
use vstd::wrapping::u32_specs::wrapping_add;

verus! {

/// The 64 round constants.
pub open spec fn sha256_k() -> Seq<u32> {
    seq![
        0x428a2f98u32, 0x71374491u32, 0xb5c0fbcfu32, 0xe9b5dba5u32,
        0x3956c25bu32, 0x59f111f1u32, 0x923f82a4u32, 0xab1c5ed5u32,
        0xd807aa98u32, 0x12835b01u32, 0x243185beu32, 0x550c7dc3u32,
        0x72be5d74u32, 0x80deb1feu32, 0x9bdc06a7u32, 0xc19bf174u32,
        0xe49b69c1u32, 0xefbe4786u32, 0x0fc19dc6u32, 0x240ca1ccu32,
        0x2de92c6fu32, 0x4a7484aau32, 0x5cb0a9dcu32, 0x76f988dau32,
        0x983e5152u32, 0xa831c66du32, 0xb00327c8u32, 0xbf597fc7u32,
        0xc6e00bf3u32, 0xd5a79147u32, 0x06ca6351u32, 0x14292967u32,
        0x27b70a85u32, 0x2e1b2138u32, 0x4d2c6dfcu32, 0x53380d13u32,
        0x650a7354u32, 0x766a0abbu32, 0x81c2c92eu32, 0x92722c85u32,
        0xa2bfe8a1u32, 0xa81a664bu32, 0xc24b8b70u32, 0xc76c51a3u32,
        0xd192e819u32, 0xd6990624u32, 0xf40e3585u32, 0x106aa070u32,
        0x19a4c116u32, 0x1e376c08u32, 0x2748774cu32, 0x34b0bcb5u32,
        0x391c0cb3u32, 0x4ed8aa4au32, 0x5b9cca4fu32, 0x682e6ff3u32,
        0x748f82eeu32, 0x78a5636fu32, 0x84c87814u32, 0x8cc70208u32,
        0x90befffau32, 0xa4506cebu32, 0xbef9a3f7u32, 0xc67178f2u32
    ]
}

/// The initial hash value.
pub open spec fn sha256_iv() -> Seq<u32> {
    seq![
        0x6a09e667u32, 0xbb67ae85u32, 0x3c6ef372u32, 0xa54ff53au32,
        0x510e527fu32, 0x9b05688cu32, 0x1f83d9abu32, 0x5be0cd19u32
    ]
}

/// `x` rotated right by `n` bits.
pub open spec fn rotr(x: u32, n: u32) -> u32 {
    (x >> n) | (x << ((32 - n) as u32))
}

/// Σ0 of the round function.
pub open spec fn big_sigma0(a: u32) -> u32 {
    rotr(a, 2) ^ rotr(a, 13) ^ rotr(a, 22)
}

/// Σ1 of the round function.
pub open spec fn big_sigma1(e: u32) -> u32 {
    rotr(e, 6) ^ rotr(e, 11) ^ rotr(e, 25)
}

/// σ0 of the message schedule.
pub open spec fn small_sigma0(x: u32) -> u32 {
    rotr(x, 7) ^ rotr(x, 18) ^ (x >> 3u32)
}

/// σ1 of the message schedule.
pub open spec fn small_sigma1(x: u32) -> u32 {
    rotr(x, 17) ^ rotr(x, 19) ^ (x >> 10u32)
}

/// The choice function.
pub open spec fn ch(e: u32, f: u32, g: u32) -> u32 {
    (e & f) ^ (!e & g)
}

/// The majority function.
pub open spec fn maj(a: u32, b: u32, c: u32) -> u32 {
    (a & b) ^ (a & c) ^ (b & c)
}

/// The big-endian word at word index `i` of `block`.
pub open spec fn be32_at(block: Seq<u8>, i: int) -> u32 {
    ((block[4 * i] as u32) << 24u32) | ((block[4 * i + 1] as u32) << 16u32) | ((block[4 * i
        + 2] as u32) << 8u32) | (block[4 * i + 3] as u32)
}

/// Word `t` of the message schedule of a 64-byte block.
pub open spec fn schedule(block: Seq<u8>, t: nat) -> u32
    decreases t,
{
    if t < 16 {
        be32_at(block, t as int)
    } else {
        wrapping_add(
            wrapping_add(
                wrapping_add(
                    small_sigma1(schedule(block, (t - 2) as nat)),
                    schedule(block, (t - 7) as nat),
                ),
                small_sigma0(schedule(block, (t - 15) as nat)),
            ),
            schedule(block, (t - 16) as nat),
        )
    }
}

/// One round applied to the working variables `s = [a, b, c, d, e, f, g, h]`.
pub open spec fn sha256_round(s: Seq<u32>, k: u32, w: u32) -> Seq<u32> {
    let t1 = wrapping_add(
        wrapping_add(wrapping_add(wrapping_add(s[7], big_sigma1(s[4])), ch(s[4], s[5], s[6])), k),
        w,
    );
    let t2 = wrapping_add(big_sigma0(s[0]), maj(s[0], s[1], s[2]));
    seq![wrapping_add(t1, t2), s[0], s[1], s[2], wrapping_add(s[3], t1), s[4], s[5], s[6]]
}

/// The working variables after the first `t` rounds over `block`.
pub open spec fn sha256_rounds(h: Seq<u32>, block: Seq<u8>, t: nat) -> Seq<u32>
    decreases t,
{
    if t == 0 {
        h
    } else {
        let prev = sha256_rounds(h, block, (t - 1) as nat);
        sha256_round(prev, sha256_k()[t - 1], schedule(block, (t - 1) as nat))
    }
}

/// The hash value after compressing one 64-byte block into `h`.
pub open spec fn sha256_compress(h: Seq<u32>, block: Seq<u8>) -> Seq<u32> {
    let r = sha256_rounds(h, block, 64);
    Seq::new(8, |i: int| wrapping_add(h[i], r[i]))
}

/// The hash value after compressing every 64-byte block of `data` into `h`.
pub open spec fn sha256_blocks(h: Seq<u32>, data: Seq<u8>) -> Seq<u32>
    decreases data.len(),
{
    if data.len() < 64 {
        h
    } else {
        let n = data.len() - 64;
        sha256_compress(sha256_blocks(h, data.take(n)), data.skip(n))
    }
}

/// Number of zero bytes of padding after the 0x80 byte.
pub open spec fn pad_zeros(len: nat) -> nat {
    if len % 64 < 56 { (55 - len % 64) as nat } else { (119 - len % 64) as nat }
}

/// The big-endian bytes of the 64-bit value `x`.
pub open spec fn be64_bytes(x: u64) -> Seq<u8> {
    Seq::new(8, |i: int| (x >> ((56 - 8 * i) as u64)) as u8)
}

/// `msg` padded to a multiple of 64 bytes.
pub open spec fn sha256_padded(msg: Seq<u8>) -> Seq<u8> {
    msg + seq![0x80u8] + Seq::new(pad_zeros(msg.len()), |i: int| 0u8) + be64_bytes(
        (msg.len() * 8) as u64,
    )
}

/// The 32 digest bytes of the hash value `h`.
pub open spec fn digest_bytes(h: Seq<u32>) -> Seq<u8> {
    Seq::new(32, |i: int| (h[i / 4] >> ((24 - 8 * (i % 4)) as u32)) as u8)
}

/// The SHA-256 digest of `msg`.
pub open spec fn sha256_digest(msg: Seq<u8>) -> Seq<u8> {
    digest_bytes(sha256_blocks(sha256_iv(), sha256_padded(msg)))
}

/// Longest message, in bytes, whose bit length fits the 64-bit length field.
pub open spec fn sha256_len_limit() -> nat {
    0x2000_0000_0000_0000
}

/// Running SHA-256 computation.
#[derive(Clone, Copy)]
pub struct Sha256 {
    state: [u32; 8],
    size: u64,
    buffer: [u8; 64],
    msg: Ghost<Seq<u8>>,
}

impl View for Sha256 {
    type V = Seq<u8>;

    /// The bytes fed so far.
    closed spec fn view(&self) -> Seq<u8> {
        self.msg@
    }
}

impl Sha256 {
    /// The running state agrees with the bytes fed so far.
    pub closed spec fn wf(&self) -> bool {
        let msg = self.msg@;
        let full = msg.len() - msg.len() % 64;
        &&& msg.len() < sha256_len_limit()
        &&& self.size == msg.len()
        &&& self.state@ == sha256_blocks(sha256_iv(), msg.take(full))
        &&& self.buffer@.take((msg.len() % 64) as int) == msg.skip(full)
    }
}

/// Rotates `num` right by `amount` bits.
pub fn rotr_32(num: u32, amount: u32) -> (r: u32)
    requires
        0 < amount < 32,
    ensures
        r == rotr(num, amount),
{
    (num >> amount) | (num << (32 - amount))
}

fn sha256_k_table() -> (r: [u32; 64])
    ensures
        r@ == sha256_k(),
{
    let r: [u32; 64] = [
        0x428a2f98, 0x71374491, 0xb5c0fbcf, 0xe9b5dba5,
        0x3956c25b, 0x59f111f1, 0x923f82a4, 0xab1c5ed5,
        0xd807aa98, 0x12835b01, 0x243185be, 0x550c7dc3,
        0x72be5d74, 0x80deb1fe, 0x9bdc06a7, 0xc19bf174,
        0xe49b69c1, 0xefbe4786, 0x0fc19dc6, 0x240ca1cc,
        0x2de92c6f, 0x4a7484aa, 0x5cb0a9dc, 0x76f988da,
        0x983e5152, 0xa831c66d, 0xb00327c8, 0xbf597fc7,
        0xc6e00bf3, 0xd5a79147, 0x06ca6351, 0x14292967,
        0x27b70a85, 0x2e1b2138, 0x4d2c6dfc, 0x53380d13,
        0x650a7354, 0x766a0abb, 0x81c2c92e, 0x92722c85,
        0xa2bfe8a1, 0xa81a664b, 0xc24b8b70, 0xc76c51a3,
        0xd192e819, 0xd6990624, 0xf40e3585, 0x106aa070,
        0x19a4c116, 0x1e376c08, 0x2748774c, 0x34b0bcb5,
        0x391c0cb3, 0x4ed8aa4a, 0x5b9cca4f, 0x682e6ff3,
        0x748f82ee, 0x78a5636f, 0x84c87814, 0x8cc70208,
        0x90befffa, 0xa4506ceb, 0xbef9a3f7, 0xc67178f2
    ];
    assert(r@ =~= sha256_k());
    r
}

fn be32_word(block: &[u8; 64], i: usize) -> (r: u32)
    requires
        i < 16,
    ensures
        r == be32_at(block@, i as int),
{
    ((block[4 * i] as u32) << 24u32) | ((block[4 * i + 1] as u32) << 16u32) | ((block[4 * i
        + 2] as u32) << 8u32) | (block[4 * i + 3] as u32)
}

/// Compresses the 64-byte `block` into the hash value `state`.
fn transform(state: &mut [u32; 8], block: &[u8; 64])
    ensures
        final(state)@ == sha256_compress(old(state)@, block@),
{
    let k = sha256_k_table();
    let mut w: [u32; 64] = [0u32; 64];
    let mut t: usize = 0;
    while t < 64
        invariant
            t <= 64,
            forall|j: int| 0 <= j < t ==> w@[j] == schedule(block@, j as nat),
        decreases 64 - t,
    {
        let x = if t < 16 {
            be32_word(block, t)
        } else {
            let a = w[t - 2];
            let b = w[t - 15];
            let s1 = rotr_32(a, 17) ^ rotr_32(a, 19) ^ (a >> 10u32);
            let s0 = rotr_32(b, 7) ^ rotr_32(b, 18) ^ (b >> 3u32);
            s1.wrapping_add(w[t - 7]).wrapping_add(s0).wrapping_add(w[t - 16])
        };
        w[t] = x;
        t = t + 1;
    }
    let ghost h0 = state@;
    let mut a = state[0];
    let mut b = state[1];
    let mut c = state[2];
    let mut d = state[3];
    let mut e = state[4];
    let mut f = state[5];
    let mut g = state[6];
    let mut h = state[7];
    assert(seq![a, b, c, d, e, f, g, h] =~= sha256_rounds(h0, block@, 0));
    let mut t: usize = 0;
    while t < 64
        invariant
            t <= 64,
            k@ == sha256_k(),
            forall|j: int| 0 <= j < 64 ==> w@[j] == schedule(block@, j as nat),
            seq![a, b, c, d, e, f, g, h] == sha256_rounds(h0, block@, t as nat),
        decreases 64 - t,
    {
        let s1 = rotr_32(e, 6) ^ rotr_32(e, 11) ^ rotr_32(e, 25);
        let chv = (e & f) ^ (!e & g);
        let t1 = h.wrapping_add(s1).wrapping_add(chv).wrapping_add(k[t]).wrapping_add(w[t]);
        let s0 = rotr_32(a, 2) ^ rotr_32(a, 13) ^ rotr_32(a, 22);
        let mj = (a & b) ^ (a & c) ^ (b & c);
        let t2 = s0.wrapping_add(mj);
        let ghost prev = seq![a, b, c, d, e, f, g, h];
        h = g;
        g = f;
        f = e;
        e = d.wrapping_add(t1);
        d = c;
        c = b;
        b = a;
        a = t1.wrapping_add(t2);
        t = t + 1;
        assert(seq![a, b, c, d, e, f, g, h] =~= sha256_round(prev, sha256_k()[t - 1], schedule(
            block@,
            (t - 1) as nat,
        )));
    }
    let ghost r = seq![a, b, c, d, e, f, g, h];
    state[0] = state[0].wrapping_add(a);
    state[1] = state[1].wrapping_add(b);
    state[2] = state[2].wrapping_add(c);
    state[3] = state[3].wrapping_add(d);
    state[4] = state[4].wrapping_add(e);
    state[5] = state[5].wrapping_add(f);
    state[6] = state[6].wrapping_add(g);
    state[7] = state[7].wrapping_add(h);
    assert(state@ =~= sha256_compress(h0, block@));
}

/// Starts a SHA-256 computation over no bytes.
pub fn lzma_sha256_init() -> (check: Sha256)
    ensures
        check.wf(),
        check@ == Seq::<u8>::empty(),
{
    let check = Sha256 {
        state: [
            0x6a09e667,
            0xbb67ae85,
            0x3c6ef372,
            0xa54ff53a,
            0x510e527f,
            0x9b05688c,
            0x1f83d9ab,
            0x5be0cd19,
        ],
        size: 0,
        buffer: [0u8; 64],
        msg: Ghost(Seq::empty()),
    };
    assert(check.state@ =~= sha256_iv());
    assert(check.msg@.take(0) =~= Seq::<u8>::empty());
    assert(check.msg@.skip(0) =~= Seq::<u8>::empty());
    assert(check.buffer@.take(0) =~= Seq::<u8>::empty());
    assert(sha256_blocks(sha256_iv(), Seq::<u8>::empty()) == sha256_iv());
    check
}

proof fn lemma_blocks_extend(m: Seq<u8>, block: Seq<u8>)
    requires
        m.len() % 64 == 0,
        block.len() == 64,
    ensures
        sha256_blocks(sha256_iv(), m + block) == sha256_compress(
            sha256_blocks(sha256_iv(), m),
            block,
        ),
{
    let d = m + block;
    assert(d.take(m.len() as int) == m);
    assert(d.skip(m.len() as int) == block);
}

fn absorb_byte(check: &mut Sha256, b: u8)
    requires
        old(check).wf(),
        old(check)@.len() + 1 < sha256_len_limit(),
    ensures
        final(check).wf(),
        final(check)@ == old(check)@.push(b),
{
    let ghost m = check@;
    let ghost full = m.len() - m.len() % 64;
    let pos = (check.size % 64) as usize;
    check.buffer[pos] = b;
    check.size = check.size + 1;
    let ghost m2 = m.push(b);
    check.msg = Ghost(m2);
    assert(m2.take(full) =~= m.take(full));
    assert forall|k: int| 0 <= k < pos + 1 implies check.buffer@.take(pos + 1)[k] == m2.skip(
        full,
    )[k] by {
        if k < pos {
            assert(old(check).buffer@.take(pos as int)[k] == m.skip(full)[k]);
        }
    }
    assert(check.buffer@.take(pos + 1) =~= m2.skip(full));
    if check.size % 64 == 0 {
        assert(m2.len() % 64 == 0);
        assert(check.buffer@.take(64) =~= check.buffer@);
        assert(m2.take(full) + m2.skip(full) =~= m2);
        proof {
            lemma_blocks_extend(m2.take(full), m2.skip(full));
        }
        transform(&mut check.state, &check.buffer);
        assert(m2.take(m2.len() as int) =~= m2);
        assert(check.buffer@.take(0) =~= m2.skip(m2.len() as int));
    }
}

/// Feeds the bytes of `buf` to a running SHA-256 computation.
pub fn lzma_sha256_update(buf: &[u8], check: &mut Sha256)
    requires
        old(check).wf(),
        old(check)@.len() + buf@.len() < sha256_len_limit(),
    ensures
        final(check).wf(),
        final(check)@ == old(check)@ + buf@,
{
    let ghost m0 = check@;
    let mut i: usize = 0;
    while i < buf.len()
        invariant
            i <= buf.len(),
            check.wf(),
            check@ == m0 + buf@.take(i as int),
            m0.len() + buf@.len() < sha256_len_limit(),
        decreases buf.len() - i,
    {
        let b = buf[i];
        absorb_byte(check, b);
        i = i + 1;
        assert(m0 + buf@.take(i as int) =~= (m0 + buf@.take(i - 1)).push(b));
    }
    assert(buf@.take(buf.len() as int) =~= buf@);
}

proof fn lemma_padded_index(m: Seq<u8>, i: int)
    requires
        0 <= i < sha256_padded(m).len(),
    ensures
        sha256_padded(m).len() == m.len() + 1 + pad_zeros(m.len()) + 8,
        sha256_padded(m)[i] == (if i < m.len() {
            m[i]
        } else if i == m.len() {
            0x80u8
        } else if i < m.len() + 1 + pad_zeros(m.len()) {
            0u8
        } else {
            be64_bytes((m.len() * 8) as u64)[i - (m.len() + 1 + pad_zeros(m.len()))]
        }),
{
}

fn digest_of(state: &[u32; 8]) -> (r: [u8; 32])
    ensures
        r@ == digest_bytes(state@),
{
    let mut r = [0u8; 32];
    let mut i: usize = 0;
    while i < 8
        invariant
            i <= 8,
            forall|j: int| 0 <= j < 4 * i ==> r@[j] == digest_bytes(state@)[j],
        decreases 8 - i,
    {
        let x = state[i];
        r[4 * i] = (x >> 24u32) as u8;
        r[4 * i + 1] = (x >> 16u32) as u8;
        r[4 * i + 2] = (x >> 8u32) as u8;
        r[4 * i + 3] = x as u8;
        assert(x >> 0u32 == x) by (bit_vector);
        i = i + 1;
    }
    assert(r@ =~= digest_bytes(state@));
    r
}

fn zero_fill(buffer: &mut [u8; 64], from: usize, to: usize)
    requires
        from <= to <= 64,
    ensures
        forall|k: int| from <= k < to ==> final(buffer)@[k] == 0u8,
        forall|k: int| 0 <= k < 64 && !(from <= k < to) ==> final(buffer)@[k] == old(buffer)@[k],
{
    let mut j = from;
    while j < to
        invariant
            from <= j <= to <= 64,
            forall|k: int| from <= k < j ==> buffer@[k] == 0u8,
            forall|k: int| 0 <= k < 64 && !(from <= k < j) ==> buffer@[k] == old(buffer)@[k],
        decreases to - j,
    {
        buffer[j] = 0;
        j = j + 1;
    }
}

fn put_length(buffer: &mut [u8; 64], lenb: &[u8; 8])
    ensures
        forall|k: int| 56 <= k < 64 ==> final(buffer)@[k] == lenb@[k - 56],
        forall|k: int| 0 <= k < 56 ==> final(buffer)@[k] == old(buffer)@[k],
{
    let mut j: usize = 0;
    while j < 8
        invariant
            j <= 8,
            forall|k: int| 56 <= k < 56 + j ==> buffer@[k] == lenb@[k - 56],
            forall|k: int| 0 <= k < 64 && !(56 <= k < 56 + j) ==> buffer@[k] == old(buffer)@[k],
        decreases 8 - j,
    {
        buffer[56 + j] = lenb[j];
        j = j + 1;
    }
}

/// Finishes a SHA-256 computation, returning the digest of the bytes fed.
pub fn lzma_sha256_finish(check: &mut Sha256) -> (digest: [u8; 32])
    requires
        old(check).wf(),
    ensures
        digest@ == sha256_digest(old(check)@),
{
    let ghost m = check@;
    let ghost len = m.len();
    let ghost full = len - len % 64;
    let ghost padded = sha256_padded(m);
    let pos = (check.size % 64) as usize;
    let bits = check.size * 8;
    let ghost b0 = check.buffer@;
    check.buffer[pos] = 0x80;
    let lenb: [u8; 8] = [
        (bits >> 56u64) as u8,
        (bits >> 48u64) as u8,
        (bits >> 40u64) as u8,
        (bits >> 32u64) as u8,
        (bits >> 24u64) as u8,
        (bits >> 16u64) as u8,
        (bits >> 8u64) as u8,
        bits as u8,
    ];
    assert(bits >> 0u64 == bits) by (bit_vector);
    assert(lenb@ =~= be64_bytes((len * 8) as u64));
    assert(padded.take(full) =~= m.take(full));
    assert(padded.len() == len + 1 + pad_zeros(len) + 8) by {
        lemma_padded_index(m, 0);
    }
    if pos < 56 {
        zero_fill(&mut check.buffer, pos + 1, 56);
        put_length(&mut check.buffer, &lenb);
        assert forall|k: int| 0 <= k < 64 implies check.buffer@[k] == padded[full + k] by {
            lemma_padded_index(m, full + k);
            if k < pos {
                assert(b0.take(pos as int)[k] == m.skip(full)[k]);
            }
        }
        assert(check.buffer@ =~= padded.skip(full));
        proof {
            lemma_blocks_extend(padded.take(full), padded.skip(full));
            assert(padded.take(full) + padded.skip(full) =~= padded);
        }
        transform(&mut check.state, &check.buffer);
    } else {
        zero_fill(&mut check.buffer, pos + 1, 64);
        assert forall|k: int| 0 <= k < 64 implies check.buffer@[k] == padded[full + k] by {
            lemma_padded_index(m, full + k);
            if k < pos {
                assert(b0.take(pos as int)[k] == m.skip(full)[k]);
            }
        }
        assert(check.buffer@ =~= padded.subrange(full, full + 64));
        proof {
            lemma_blocks_extend(padded.take(full), padded.subrange(full, full + 64));
            assert(padded.take(full) + padded.subrange(full, full + 64) =~= padded.take(full + 64));
        }
        transform(&mut check.state, &check.buffer);
        zero_fill(&mut check.buffer, 0, 56);
        put_length(&mut check.buffer, &lenb);
        assert forall|k: int| 0 <= k < 64 implies check.buffer@[k] == padded[full + 64 + k] by {
            lemma_padded_index(m, full + 64 + k);
        }
        assert(check.buffer@ =~= padded.skip(full + 64));
        proof {
            lemma_blocks_extend(padded.take(full + 64), padded.skip(full + 64));
            assert(padded.take(full + 64) + padded.skip(full + 64) =~= padded);
        }
        transform(&mut check.state, &check.buffer);
    }
    digest_of(&check.state)
}

/// SHA-256 digest of a whole buffer.
pub fn sha256(buf: &[u8]) -> (digest: [u8; 32])
    requires
        buf@.len() < sha256_len_limit(),
    ensures
        digest@ == sha256_digest(buf@),
{
    let mut check = lzma_sha256_init();
    lzma_sha256_update(buf, &mut check);
    assert(Seq::<u8>::empty() + buf@ == buf@);
    lzma_sha256_finish(&mut check)
}

} // verus!
