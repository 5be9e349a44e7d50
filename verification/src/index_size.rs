//! Sizes of the Index field of a .xz Stream.
use vstd::prelude::*;
use crate::types::{ceil4, LZMA_BACKWARD_SIZE_MAX, LZMA_STREAM_HEADER_SIZE, LZMA_VLI_MAX};
use crate::vli::{lzma_vli_size, vli_size_spec};

verus! {

/// Size of an Index without its padding: the Index Indicator, the Number of
/// Records, the List of Records and the CRC32.
pub open spec fn index_size_unpadded(count: u64, index_list_size: u64) -> int {
    1 + vli_size_spec(count) + index_list_size + 4
}

/// Size of an Index, padding included.
pub open spec fn index_size(count: u64, index_list_size: u64) -> int {
    ceil4(index_size_unpadded(count, index_list_size))
}

/// Size of a whole Stream: header, Blocks, Index and footer.
pub open spec fn index_stream_size(blocks_size: u64, count: u64, index_list_size: u64) -> int {
    LZMA_STREAM_HEADER_SIZE + blocks_size + index_size(count, index_list_size)
        + LZMA_STREAM_HEADER_SIZE
}

/// An Index is at least as large as its List of Records.
pub proof fn lemma_index_size_covers_list(count: u64, index_list_size: u64)
    ensures
        index_size(count, index_list_size) >= index_list_size,
{
}

/// Returns the size of an Index without its padding.
pub fn index_size_unpadded_of(count: u64, index_list_size: u64) -> (r: u64)
    requires
        index_list_size <= LZMA_VLI_MAX,
    ensures
        r == index_size_unpadded(count, index_list_size),
        r <= index_list_size + 14,
{
    let n = lzma_vli_size(count);
    1 + n as u64 + index_list_size + 4
}

/// Returns the size of an Index, padding included.
pub fn index_size_of(count: u64, index_list_size: u64) -> (r: u64)
    requires
        index_list_size <= LZMA_VLI_MAX,
    ensures
        r == index_size(count, index_list_size),
{
    let u = index_size_unpadded_of(count, index_list_size);
    if u % 4 == 0 {
        u
    } else {
        u + (4 - u % 4)
    }
}

/// Returns the size of a whole Stream with the given Blocks and Index.
pub fn index_stream_size_of(blocks_size: u64, count: u64, index_list_size: u64) -> (r: u64)
    requires
        blocks_size <= LZMA_VLI_MAX,
        index_list_size <= LZMA_VLI_MAX,
        index_size(count, index_list_size) <= LZMA_BACKWARD_SIZE_MAX,
    ensures
        r == index_stream_size(blocks_size, count, index_list_size),
{
    (LZMA_STREAM_HEADER_SIZE as u64) + blocks_size + index_size_of(count, index_list_size)
        + (LZMA_STREAM_HEADER_SIZE as u64)
}

} // verus!
