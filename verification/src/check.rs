//! Integrity checks of the .xz format: none, CRC32, CRC64 and SHA-256.
use vstd::prelude::*;
use crate::crc::{crc32, crc32_of, crc64, crc64_of, law_crc32_chunked, law_crc64_chunked};
use crate::sha256::{
    lzma_sha256_finish, lzma_sha256_init, lzma_sha256_update, sha256_digest, sha256_len_limit,
    Sha256,
};
use crate::types::{
    le32_bytes, LZMA_CHECK_CRC32, LZMA_CHECK_CRC64, LZMA_CHECK_ID_MAX, LZMA_CHECK_NONE,
    LZMA_CHECK_SHA256,
};

verus! {

/// Size in bytes of the check with ID `check`: 0, 4, 8, 16, 32 or 64 by
/// groups of three IDs, or `u32::MAX` for an ID above `LZMA_CHECK_ID_MAX`.
pub open spec fn check_size_spec(check: u32) -> u32 {
    if check > LZMA_CHECK_ID_MAX {
        u32::MAX
    } else if check == 0 {
        0
    } else if check <= 3 {
        4
    } else if check <= 6 {
        8
    } else if check <= 9 {
        16
    } else if check <= 12 {
        32
    } else {
        64
    }
}

/// The check IDs this library can calculate.
pub open spec fn check_supported_spec(check: u32) -> bool {
    check == LZMA_CHECK_NONE || check == LZMA_CHECK_CRC32 || check == LZMA_CHECK_CRC64 || check
        == LZMA_CHECK_SHA256
}

/// Little-endian bytes of a 64-bit value.
pub open spec fn le64_bytes(x: u64) -> Seq<u8> {
    Seq::new(8, |i: int| (x >> ((8 * i) as u64)) as u8)
}

/// The check field that the check `check` stores for `msg`.
pub open spec fn check_value(check: u32, msg: Seq<u8>) -> Seq<u8> {
    if check == LZMA_CHECK_CRC32 {
        le32_bytes(crc32_of(msg, 0))
    } else if check == LZMA_CHECK_CRC64 {
        le64_bytes(crc64_of(msg, 0))
    } else if check == LZMA_CHECK_SHA256 {
        sha256_digest(msg)
    } else {
        Seq::empty()
    }
}

/// Returns the size of the check with ID `check`.
pub fn lzma_check_size(check: u32) -> (r: u32)
    ensures
        r == check_size_spec(check),
{
    if check > LZMA_CHECK_ID_MAX {
        return u32::MAX;
    }
    let sizes: [u32; 16] = [0, 4, 4, 4, 8, 8, 8, 16, 16, 16, 32, 32, 32, 64, 64, 64];
    let r = sizes[check as usize];
    assert(sizes@[check as int] == check_size_spec(check));
    r
}

/// Tells whether the check with ID `check` can be calculated.
pub fn lzma_check_is_supported(check: u32) -> (r: bool)
    ensures
        r == check_supported_spec(check),
{
    check == LZMA_CHECK_NONE || check == LZMA_CHECK_CRC32 || check == LZMA_CHECK_CRC64 || check
        == LZMA_CHECK_SHA256
}

#[derive(Clone, Copy)]
enum CheckRun {
    Nothing,
    Crc32(u32),
    Crc64(u64),
    Sha(Sha256),
}

/// A check being calculated.
#[derive(Clone, Copy)]
pub struct LzmaCheckState {
    run: CheckRun,
    check: u32,
    len: u64,
    msg: Ghost<Seq<u8>>,
}

impl View for LzmaCheckState {
    type V = Seq<u8>;

    /// The bytes fed so far.
    closed spec fn view(&self) -> Seq<u8> {
        self.msg@
    }
}

impl LzmaCheckState {
    /// The check ID the state calculates.
    pub closed spec fn check_id(&self) -> u32 {
        self.check
    }

    /// The state agrees with the bytes fed so far.
    pub closed spec fn wf(&self) -> bool {
        &&& self.msg@.len() < sha256_len_limit()
        &&& self.len == self.msg@.len()
        &&& match self.run {
            CheckRun::Nothing => !(self.check == LZMA_CHECK_CRC32 || self.check == LZMA_CHECK_CRC64
                || self.check == LZMA_CHECK_SHA256),
            CheckRun::Crc32(c) => self.check == LZMA_CHECK_CRC32 && c == crc32_of(self.msg@, 0),
            CheckRun::Crc64(c) => self.check == LZMA_CHECK_CRC64 && c == crc64_of(self.msg@, 0),
            CheckRun::Sha(s) => self.check == LZMA_CHECK_SHA256 && s.wf() && s@ == self.msg@,
        }
    }
}

/// Starts calculating the check `check` over no bytes.
pub fn lzma_check_init(check: u32) -> (state: LzmaCheckState)
    ensures
        state.wf(),
        state@ == Seq::<u8>::empty(),
        state.check_id() == check,
{
    let run = if check == LZMA_CHECK_CRC32 {
        CheckRun::Crc32(0)
    } else if check == LZMA_CHECK_CRC64 {
        CheckRun::Crc64(0)
    } else if check == LZMA_CHECK_SHA256 {
        CheckRun::Sha(lzma_sha256_init())
    } else {
        CheckRun::Nothing
    };
    proof {
        crate::crc::lemma_crc_of_empty();
    }
    LzmaCheckState { run, check, len: 0, msg: Ghost(Seq::empty()) }
}

/// Feeds the bytes of `buf` to the check.
pub fn lzma_check_update(state: &mut LzmaCheckState, check: u32, buf: &[u8])
    requires
        old(state).wf(),
        old(state).check_id() == check,
        old(state)@.len() + buf@.len() < sha256_len_limit(),
    ensures
        final(state).wf(),
        final(state).check_id() == check,
        final(state)@ == old(state)@ + buf@,
{
    let ghost m = state@;
    let ghost m2 = m + buf@;
    match &mut state.run {
        CheckRun::Crc32(c) => {
            proof {
                law_crc32_chunked(m, buf@, 0);
            }
            *c = crc32(buf, *c);
        },
        CheckRun::Crc64(c) => {
            proof {
                law_crc64_chunked(m, buf@, 0);
            }
            *c = crc64(buf, *c);
        },
        CheckRun::Sha(s) => {
            lzma_sha256_update(buf, s);
        },
        CheckRun::Nothing => {},
    }
    state.msg = Ghost(m2);
    state.len = state.len + buf.len() as u64;
}

/// Number of bytes fed to the check so far.
pub fn lzma_check_fed(state: &LzmaCheckState) -> (r: u64)
    requires
        state.wf(),
    ensures
        r == state@.len(),
{
    state.len
}

/// Finishes the check, returning the bytes of the check field for the bytes
/// fed.
pub fn lzma_check_finish(state: &mut LzmaCheckState, check: u32) -> (r: Vec<u8>)
    requires
        old(state).wf(),
        old(state).check_id() == check,
    ensures
        r@ == check_value(check, old(state)@),
{
    let ghost m = state@;
    match &mut state.run {
        CheckRun::Crc32(c) => {
            let x = *c;
            let mut r = Vec::new();
            r.push(x as u8);
            r.push((x >> 8u32) as u8);
            r.push((x >> 16u32) as u8);
            r.push((x >> 24u32) as u8);
            assert(r@ =~= le32_bytes(x));
            r
        },
        CheckRun::Crc64(c) => {
            let x = *c;
            let mut r: Vec<u8> = Vec::new();
            let mut i: u64 = 0;
            while i < 8
                invariant
                    i <= 8,
                    r@.len() == i,
                    forall|j: int| 0 <= j < i ==> r@[j] == le64_bytes(x)[j],
                decreases 8 - i,
            {
                r.push((x >> (8 * i)) as u8);
                i = i + 1;
            }
            assert(r@ =~= le64_bytes(x));
            r
        },
        CheckRun::Sha(s) => {
            let d = lzma_sha256_finish(s);
            let mut r: Vec<u8> = Vec::new();
            let mut i: usize = 0;
            while i < 32
                invariant
                    i <= 32,
                    r@ == d@.take(i as int),
                decreases 32 - i,
            {
                r.push(d[i]);
                i = i + 1;
                assert(r@ =~= d@.take(i as int));
            }
            assert(d@.take(32) =~= d@);
            r
        },
        CheckRun::Nothing => Vec::new(),
    }
}

} // verus!
