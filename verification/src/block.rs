//! Sizes of a Block: the fields of its header that fix them, and the bound
//! on the size of a Block that encodes a buffer in one call.
use vstd::prelude::*;
use crate::check::{check_size_spec, lzma_check_size};
use crate::filter::Filter;
use crate::types::{
    ceil4, vli_ceil4, COMPRESSED_SIZE_MAX, LZMA_BLOCK_HEADER_SIZE_MAX, LZMA_BLOCK_HEADER_SIZE_MIN,
    LZMA_CHECK_ID_MAX, LZMA_DATA_ERROR, LZMA_OK, LZMA_PROG_ERROR, LZMA_VLI_MAX, LZMA_VLI_UNKNOWN,
    UNPADDED_SIZE_MAX,
};

verus! {

/// Largest uncompressed size of an LZMA2 chunk.
pub const LZMA2_CHUNK_MAX: u64 = 0x1_0000;
/// Size of the header of an uncompressed LZMA2 chunk.
pub const LZMA2_HEADER_UNCOMPRESSED: u64 = 3;
/// Bound on the size of a Block Header, the Block Padding and the Check of a
/// Block that encodes a buffer in one call.
pub const HEADERS_BOUND: u64 = 92;

/// Largest LZMA2 size of `u` bytes of data: the data in uncompressed chunks
/// plus the chunk headers and the end marker, or 0 when that is too big.
pub open spec fn lzma2_bound_spec(u: u64) -> u64 {
    if u > COMPRESSED_SIZE_MAX {
        0
    } else {
        let overhead: int = (u + LZMA2_CHUNK_MAX - 1) / (LZMA2_CHUNK_MAX as int) * LZMA2_HEADER_UNCOMPRESSED
            + 1;
        if COMPRESSED_SIZE_MAX - overhead < u {
            0
        } else {
            (u + overhead) as u64
        }
    }
}

/// Largest size of a Block that encodes `u` bytes in one call, or 0 when
/// that is too big.
pub open spec fn block_bound_spec(u: u64) -> u64 {
    if lzma2_bound_spec(u) == 0 {
        0
    } else {
        (HEADERS_BOUND + ceil4(lzma2_bound_spec(u) as int)) as u64
    }
}

pub(crate) fn lzma2_bound(uncompressed_size: u64) -> (r: u64)
    ensures
        r == lzma2_bound_spec(uncompressed_size),
        r <= COMPRESSED_SIZE_MAX,
{
    if uncompressed_size > COMPRESSED_SIZE_MAX {
        return 0;
    }
    let overhead: u64 = (uncompressed_size + LZMA2_CHUNK_MAX - 1) / LZMA2_CHUNK_MAX
        * LZMA2_HEADER_UNCOMPRESSED + 1;
    if COMPRESSED_SIZE_MAX - overhead < uncompressed_size {
        return 0;
    }
    uncompressed_size + overhead
}

/// Largest size of a Block that encodes `uncompressed_size` bytes in one
/// call; 0 when that size is too big for a Block.
pub fn lzma_block_buffer_bound64(uncompressed_size: u64) -> (r: u64)
    ensures
        r == block_bound_spec(uncompressed_size),
{
    let lzma2_size = lzma2_bound(uncompressed_size);
    if lzma2_size == 0 {
        return 0;
    }
    HEADERS_BOUND + vli_ceil4(lzma2_size)
}

/// `ret` as a `usize` when it is at most `size_max`, else 0.
pub fn size_t_bound_or_zero_with_max(ret: u64, size_max: u64) -> (r: usize)
    requires
        size_max <= usize::MAX,
    ensures
        r == (if ret > size_max {
            0
        } else {
            ret
        }),
{
    if ret > size_max {
        0
    } else {
        ret as usize
    }
}

/// `ret` as a `usize` when it fits, else 0.
pub fn size_t_bound_or_zero(ret: u64) -> (r: usize)
    ensures
        r == (if ret > usize::MAX {
            0
        } else {
            ret
        }),
{
    if (usize::MAX as u64) < ret {
        0
    } else {
        ret as usize
    }
}

/// Largest size of a Block that encodes `uncompressed_size` bytes in one
/// call; 0 when that size is too big for a Block or for a `usize`.
pub fn lzma_block_buffer_bound(uncompressed_size: usize) -> (r: usize)
    ensures
        r == (if block_bound_spec(uncompressed_size as u64) > usize::MAX {
            0
        } else {
            block_bound_spec(uncompressed_size as u64)
        }),
{
    let ret = lzma_block_buffer_bound64(uncompressed_size as u64);
    size_t_bound_or_zero(ret)
}

/// The options of a Block: its format version, the sizes its header records,
/// its check and its filter chain.
#[allow(non_camel_case_types)]
#[derive(Clone, Copy, Debug)]
pub struct lzma_block {
    /// Block format version.
    pub version: u32,
    /// Size of the Block Header in bytes.
    pub header_size: u32,
    /// Integrity check ID.
    pub check: u32,
    /// Size of the Compressed Data, or `LZMA_VLI_UNKNOWN`.
    pub compressed_size: u64,
    /// Size of the uncompressed data, or `LZMA_VLI_UNKNOWN`.
    pub uncompressed_size: u64,
    /// The filter chain, ended by an `LZMA_VLI_UNKNOWN` ID.
    pub filters: [Filter; 5],
    /// The check is not to be verified.
    pub ignore_check: bool,
    /// The check field of the Block, in its first bytes (as many as the
    /// check has).
    pub raw_check: [u8; 64],
}

/// The fields of `block` are ones that a Block can have.
pub open spec fn block_fields_valid(block: lzma_block) -> bool {
    &&& block.version <= 1
    &&& LZMA_BLOCK_HEADER_SIZE_MIN <= block.header_size <= LZMA_BLOCK_HEADER_SIZE_MAX
    &&& block.header_size % 4 == 0
    &&& block.compressed_size <= LZMA_VLI_MAX || block.compressed_size == LZMA_VLI_UNKNOWN
    &&& block.compressed_size != 0
    &&& block.check <= LZMA_CHECK_ID_MAX
}

/// The Unpadded Size of `block` (header, data and check): 0 for invalid
/// fields or a size too big, `LZMA_VLI_UNKNOWN` while the compressed size is
/// unknown.
pub open spec fn unpadded_size_spec(block: lzma_block) -> u64 {
    if !block_fields_valid(block) {
        0
    } else if block.compressed_size == LZMA_VLI_UNKNOWN {
        LZMA_VLI_UNKNOWN
    } else if block.compressed_size + block.header_size + check_size_spec(block.check)
        > UNPADDED_SIZE_MAX {
        0
    } else {
        (block.compressed_size + block.header_size + check_size_spec(block.check)) as u64
    }
}

/// Unpadded Size of `block`: its header, its data and its check.
pub fn lzma_block_unpadded_size(block: &lzma_block) -> (r: u64)
    ensures
        r == unpadded_size_spec(*block),
{
    if block.version > 1 || block.header_size < LZMA_BLOCK_HEADER_SIZE_MIN || block.header_size
        > LZMA_BLOCK_HEADER_SIZE_MAX || block.header_size & 3 != 0 || !(block.compressed_size
        <= LZMA_VLI_MAX || block.compressed_size == LZMA_VLI_UNKNOWN) || block.compressed_size
        == 0 || block.check > LZMA_CHECK_ID_MAX {
        proof {
            let h = block.header_size;
            assert(h & 3 == h % 4) by (bit_vector);
        }
        return 0;
    }
    proof {
        let h = block.header_size;
        assert(h & 3 == h % 4) by (bit_vector);
    }
    if block.compressed_size == LZMA_VLI_UNKNOWN {
        return LZMA_VLI_UNKNOWN;
    }
    let unpadded = block.compressed_size + block.header_size as u64 + lzma_check_size(block.check)
        as u64;
    if unpadded > UNPADDED_SIZE_MAX {
        return 0;
    }
    unpadded
}

/// Total Size of `block`: its Unpadded Size rounded up to a multiple of four
/// (0 and `LZMA_VLI_UNKNOWN` as there).
pub fn lzma_block_total_size(block: &lzma_block) -> (r: u64)
    ensures
        r == (if unpadded_size_spec(*block) == LZMA_VLI_UNKNOWN {
            LZMA_VLI_UNKNOWN
        } else {
            ceil4(unpadded_size_spec(*block) as int) as u64
        }),
{
    let unpadded = lzma_block_unpadded_size(block);
    if unpadded != LZMA_VLI_UNKNOWN {
        vli_ceil4(unpadded)
    } else {
        unpadded
    }
}

/// Sets the compressed size of `block` from its Unpadded Size: `LZMA_OK`,
/// `LZMA_PROG_ERROR` for invalid fields, `LZMA_DATA_ERROR` for an Unpadded
/// Size no larger than the header and check, or that disagrees with a
/// compressed size already known. The block changes only on `LZMA_OK`.
pub fn lzma_block_compressed_size(block: &mut lzma_block, unpadded_size: u64) -> (r: u32)
    ensures
        ({
            let b = *old(block);
            let container = b.header_size + check_size_spec(b.check);
            if unpadded_size_spec(b) == 0 {
                r == LZMA_PROG_ERROR && *final(block) == b
            } else if unpadded_size <= container {
                r == LZMA_DATA_ERROR && *final(block) == b
            } else if b.compressed_size != LZMA_VLI_UNKNOWN && b.compressed_size != unpadded_size
                - container {
                r == LZMA_DATA_ERROR && *final(block) == b
            } else {
                r == LZMA_OK && *final(block) == (lzma_block {
                    compressed_size: (unpadded_size - container) as u64,
                    ..b
                })
            }
        }),
{
    if lzma_block_unpadded_size(block) == 0 {
        return LZMA_PROG_ERROR;
    }
    let container_size = block.header_size as u64 + lzma_check_size(block.check) as u64;
    if unpadded_size <= container_size {
        return LZMA_DATA_ERROR;
    }
    let compressed_size = unpadded_size - container_size;
    if block.compressed_size != LZMA_VLI_UNKNOWN && block.compressed_size != compressed_size {
        return LZMA_DATA_ERROR;
    }
    block.compressed_size = compressed_size;
    LZMA_OK
}

} // verus!
