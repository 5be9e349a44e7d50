//! Verified building blocks of the .xz container format and of the LZMA
//! stream interface: integrity checks, variable-length integers, Stream
//! Flags, Block sizes, the Index, filter chains and their properties,
//! presets, and the bookkeeping and decisions around a coding stream.
pub mod types;
pub mod common;
pub mod crc;
pub mod sha256;
pub mod check;
pub mod vli;
pub mod stream_flags;
pub mod index_size;
pub mod index_hash;
pub mod index;
pub mod index_decoder;
pub mod index_coder;
pub mod index_encoder;
pub mod index_laws;
pub mod xz_stored;
pub mod file_info;
pub mod block;
pub mod block_header;
pub mod block_decoder;
pub mod block_buffer_encoder;
pub mod filter;
pub mod filter_flags;
pub mod preset;
pub mod stream;
pub mod stream_decoder_mt;
pub mod stream_decoder;
pub mod stream_encoder;
pub mod write;
pub mod delta;
pub mod string_conversion;
pub mod probe;
