//! CRC32 (IEEE 802.3) and CRC64 (ECMA-182) in their reflected forms, as used
//! by the .xz format.
use vstd::prelude::*;

verus! {

/// One bit step of the reflected CRC32 register.
pub open spec fn crc32_bit(c: u32) -> u32 {
    if c & 1 == 1 { (c >> 1u32) ^ 0xedb8_8320u32 } else { c >> 1u32 }
}

/// `n` bit steps of the reflected CRC32 register.
pub open spec fn crc32_bits(c: u32, n: nat) -> u32
    decreases n,
{
    if n == 0 { c } else { crc32_bits(crc32_bit(c), (n - 1) as nat) }
}

/// The CRC32 register after feeding one byte.
pub open spec fn crc32_byte(c: u32, b: u8) -> u32 {
    crc32_bits(c ^ (b as u32), 8)
}

/// The CRC32 register after feeding every byte of `data`, in order.
pub open spec fn crc32_register(c: u32, data: Seq<u8>) -> u32
    decreases data.len(),
{
    if data.len() == 0 {
        c
    } else {
        crc32_byte(crc32_register(c, data.drop_last()), data.last())
    }
}

/// CRC32 of `data`, continuing from the earlier result `crc` (0 to start).
pub open spec fn crc32_of(data: Seq<u8>, crc: u32) -> u32 {
    !crc32_register(!crc, data)
}

/// One bit step of the reflected CRC64 register.
pub open spec fn crc64_bit(c: u64) -> u64 {
    if c & 1 == 1 { (c >> 1u64) ^ 0xc96c_5795_d787_0f42u64 } else { c >> 1u64 }
}

/// `n` bit steps of the reflected CRC64 register.
pub open spec fn crc64_bits(c: u64, n: nat) -> u64
    decreases n,
{
    if n == 0 { c } else { crc64_bits(crc64_bit(c), (n - 1) as nat) }
}

/// The CRC64 register after feeding one byte.
pub open spec fn crc64_byte(c: u64, b: u8) -> u64 {
    crc64_bits(c ^ (b as u64), 8)
}

/// The CRC64 register after feeding every byte of `data`, in order.
pub open spec fn crc64_register(c: u64, data: Seq<u8>) -> u64
    decreases data.len(),
{
    if data.len() == 0 {
        c
    } else {
        crc64_byte(crc64_register(c, data.drop_last()), data.last())
    }
}

/// CRC64 of `data`, continuing from the earlier result `crc` (0 to start).
pub open spec fn crc64_of(data: Seq<u8>, crc: u64) -> u64 {
    !crc64_register(!crc, data)
}

fn crc32_update_byte(c: u32, b: u8) -> (r: u32)
    ensures
        r == crc32_byte(c, b),
{
    let mut r = c ^ (b as u32);
    let mut k: u32 = 0;
    while k < 8
        invariant
            k <= 8,
            crc32_bits(r, (8 - k) as nat) == crc32_byte(c, b),
        decreases 8 - k,
    {
        if r & 1 == 1 {
            r = (r >> 1u32) ^ 0xedb8_8320u32;
        } else {
            r = r >> 1u32;
        }
        k = k + 1;
    }
    r
}

fn crc64_update_byte(c: u64, b: u8) -> (r: u64)
    ensures
        r == crc64_byte(c, b),
{
    let mut r = c ^ (b as u64);
    let mut k: u32 = 0;
    while k < 8
        invariant
            k <= 8,
            crc64_bits(r, (8 - k) as nat) == crc64_byte(c, b),
        decreases 8 - k,
    {
        if r & 1 == 1 {
            r = (r >> 1u64) ^ 0xc96c_5795_d787_0f42u64;
        } else {
            r = r >> 1u64;
        }
        k = k + 1;
    }
    r
}

/// Calculates the CRC32 of `buf`, continuing from the result `crc` of the data
/// before it (0 for the first call).
pub fn crc32(buf: &[u8], crc: u32) -> (r: u32)
    ensures
        r == crc32_of(buf@, crc),
{
    let mut c: u32 = !crc;
    let mut i: usize = 0;
    while i < buf.len()
        invariant
            i <= buf.len(),
            c == crc32_register(!crc, buf@.take(i as int)),
        decreases buf.len() - i,
    {
        assert(buf@.take(i + 1).drop_last() == buf@.take(i as int));
        c = crc32_update_byte(c, buf[i]);
        i = i + 1;
    }
    assert(buf@.take(buf.len() as int) == buf@);
    !c
}

/// Calculates the CRC64 of `buf`, continuing from the result `crc` of the data
/// before it (0 for the first call).
pub fn crc64(buf: &[u8], crc: u64) -> (r: u64)
    ensures
        r == crc64_of(buf@, crc),
{
    let mut c: u64 = !crc;
    let mut i: usize = 0;
    while i < buf.len()
        invariant
            i <= buf.len(),
            c == crc64_register(!crc, buf@.take(i as int)),
        decreases buf.len() - i,
    {
        assert(buf@.take(i + 1).drop_last() == buf@.take(i as int));
        c = crc64_update_byte(c, buf[i]);
        i = i + 1;
    }
    assert(buf@.take(buf.len() as int) == buf@);
    !c
}

proof fn lemma_crc32_register_append(c: u32, a: Seq<u8>, b: Seq<u8>)
    ensures
        crc32_register(c, a + b) == crc32_register(crc32_register(c, a), b),
    decreases b.len(),
{
    if b.len() == 0 {
        assert(a + b == a);
    } else {
        lemma_crc32_register_append(c, a, b.drop_last());
        assert((a + b).drop_last() == a + b.drop_last());
        assert((a + b).last() == b.last());
    }
}

proof fn lemma_crc64_register_append(c: u64, a: Seq<u8>, b: Seq<u8>)
    ensures
        crc64_register(c, a + b) == crc64_register(crc64_register(c, a), b),
    decreases b.len(),
{
    if b.len() == 0 {
        assert(a + b == a);
    } else {
        lemma_crc64_register_append(c, a, b.drop_last());
        assert((a + b).drop_last() == a + b.drop_last());
        assert((a + b).last() == b.last());
    }
}

/// The CRC32 and the CRC64 of no bytes are 0.
pub proof fn lemma_crc_of_empty()
    ensures
        crc32_of(Seq::<u8>::empty(), 0) == 0,
        crc64_of(Seq::<u8>::empty(), 0) == 0,
{
    reveal_with_fuel(crc32_register, 1);
    reveal_with_fuel(crc64_register, 1);
    assert(!(!0u32) == 0u32 && !(!0u64) == 0u64) by (bit_vector);
}

/// Feeding data in two pieces, passing the first result on as the starting
/// value of the second call, gives the CRC32 of the whole.
pub proof fn law_crc32_chunked(a: Seq<u8>, b: Seq<u8>, crc: u32)
    ensures
        crc32_of(b, crc32_of(a, crc)) == crc32_of(a + b, crc),
{
    lemma_crc32_register_append(!crc, a, b);
    let x = crc32_register(!crc, a);
    assert(!(!x) == x) by (bit_vector);
}

/// Feeding data in two pieces, passing the first result on as the starting
/// value of the second call, gives the CRC64 of the whole.
pub proof fn law_crc64_chunked(a: Seq<u8>, b: Seq<u8>, crc: u64)
    ensures
        crc64_of(b, crc64_of(a, crc)) == crc64_of(a + b, crc),
{
    lemma_crc64_register_append(!crc, a, b);
    let x = crc64_register(!crc, a);
    assert(!(!x) == x) by (bit_vector);
}

} // verus!
