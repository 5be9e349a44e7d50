//! The settings of a multithreaded .xz decoder, checked and normalised from
//! the options a caller gives. Running the threads is left to the caller.
use vstd::prelude::*;
use crate::types::{
    LZMA_CONCATENATED, LZMA_FAIL_FAST, LZMA_IGNORE_CHECK, LZMA_OPTIONS_ERROR, LZMA_TELL_ANY_CHECK,
    LZMA_TELL_NO_CHECK, LZMA_TELL_UNSUPPORTED_CHECK,
};

verus! {

/// Most worker threads a coder can have.
pub const LZMA_THREADS_MAX: u32 = 16384;

/// The decoder flags this library knows.
pub const LZMA_SUPPORTED_FLAGS: u32 = 0x3f;

/// The settings of a multithreaded decoder.
#[derive(Clone, Copy, Debug, PartialEq, Eq, Structural)]
pub struct MtDecoderSettings {
    /// Number of worker threads.
    pub threads: u32,
    /// Milliseconds to wait for output before returning, 0 for no limit.
    pub timeout: u32,
    /// Memory the decoder may use before it stops using threads.
    pub memlimit_threading: u64,
    /// Memory the decoder may use at all.
    pub memlimit_stop: u64,
    /// Report a Stream without a check.
    pub tell_no_check: bool,
    /// Report a check this library cannot verify.
    pub tell_unsupported_check: bool,
    /// Report the check of each Stream.
    pub tell_any_check: bool,
    /// Do not verify the checks.
    pub ignore_check: bool,
    /// Decode concatenated Streams.
    pub concatenated: bool,
    /// Report errors as soon as possible.
    pub fail_fast: bool,
}

/// Checks the options of a multithreaded decoder: `LZMA_OPTIONS_ERROR` for
/// no threads, more than `LZMA_THREADS_MAX` or an unknown flag. Otherwise
/// the settings: each memory limit at least 1, the threading limit no more
/// than the stopping one, and the flags read one by one.
pub fn stream_decoder_mt_settings(
    threads: u32,
    flags: u32,
    timeout: u32,
    memlimit_threading: u64,
    memlimit_stop: u64,
) -> (r: Result<MtDecoderSettings, u32>)
    ensures
        r is Err <==> (threads == 0 || threads > LZMA_THREADS_MAX || flags & !LZMA_SUPPORTED_FLAGS
            != 0),
        r matches Err(e) ==> e == LZMA_OPTIONS_ERROR,
        r matches Ok(s) ==> {
            let stop: u64 = if memlimit_stop < 1 { 1 } else { memlimit_stop };
            let thr: u64 = if memlimit_threading < 1 { 1 } else { memlimit_threading };
            &&& s.threads == threads
            &&& s.timeout == timeout
            &&& s.memlimit_stop == stop
            &&& s.memlimit_threading == (if thr > stop { stop } else { thr })
            &&& s.tell_no_check == (flags & LZMA_TELL_NO_CHECK != 0)
            &&& s.tell_unsupported_check == (flags & LZMA_TELL_UNSUPPORTED_CHECK != 0)
            &&& s.tell_any_check == (flags & LZMA_TELL_ANY_CHECK != 0)
            &&& s.ignore_check == (flags & LZMA_IGNORE_CHECK != 0)
            &&& s.concatenated == (flags & LZMA_CONCATENATED != 0)
            &&& s.fail_fast == (flags & LZMA_FAIL_FAST != 0)
        },
{
    if threads == 0 || threads > LZMA_THREADS_MAX {
        return Err(LZMA_OPTIONS_ERROR);
    }
    if flags & !LZMA_SUPPORTED_FLAGS != 0 {
        return Err(LZMA_OPTIONS_ERROR);
    }
    let stop = if memlimit_stop < 1 { 1 } else { memlimit_stop };
    let mut thr = if memlimit_threading < 1 { 1 } else { memlimit_threading };
    if thr > stop {
        thr = stop;
    }
    Ok(
        MtDecoderSettings {
            threads,
            timeout,
            memlimit_threading: thr,
            memlimit_stop: stop,
            tell_no_check: flags & LZMA_TELL_NO_CHECK != 0,
            tell_unsupported_check: flags & LZMA_TELL_UNSUPPORTED_CHECK != 0,
            tell_any_check: flags & LZMA_TELL_ANY_CHECK != 0,
            ignore_check: flags & LZMA_IGNORE_CHECK != 0,
            concatenated: flags & LZMA_CONCATENATED != 0,
            fail_fast: flags & LZMA_FAIL_FAST != 0,
        },
    )
}

} // verus!
