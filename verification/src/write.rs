//! The decisions of the writers that compress or decompress what is written
//! to them into an inner writer: when a `write` call is answered, when
//! finishing is done or has failed, and how the output buffer drains.
use vstd::prelude::*;
use crate::preset::preset_options;
use crate::sha256::sha256_len_limit;
use crate::stream::{cvt, ret_result, Error, Status};
use crate::types::{LZMA_CHECK_CRC64, LZMA_PROG_ERROR};
use crate::xz_stored::{
    is_stored_stream, law_stored_stream_ok, stored_size_ok, stored_stream_result, xz_stored_decode,
    xz_stored_encode,
};

verus! {

/// Which way a writer codes.
#[derive(Debug, Copy, Clone, PartialEq, Eq, Structural)]
pub enum CoderKind {
    /// Compresses what is written.
    Encoder,
    /// Decompresses what is written.
    Decoder,
}

/// A `write` of `data_len` bytes, after a coding call that consumed
/// `consumed` of them and reported `status`, answers now: when input was
/// consumed, when there was none to give, or, for a decoder, at the end of
/// the stream. Otherwise it codes again.
pub open spec fn write_done_spec(kind: CoderKind, consumed: u64, data_len: usize, status: Status) -> bool {
    consumed > 0 || data_len == 0 || (kind == CoderKind::Decoder && status == Status::StreamEnd)
}

/// Tells whether a `write` answers after a coding call (see
/// `write_done_spec`).
pub fn write_done(kind: CoderKind, consumed: u64, data_len: usize, status: Status) -> (r: bool)
    ensures
        r == write_done_spec(kind, consumed, data_len, status),
{
    consumed > 0 || data_len == 0 || (kind == CoderKind::Decoder && status == Status::StreamEnd)
}

/// What finishing does after a coding call with the `Finish` action.
#[derive(Debug, Copy, Clone, PartialEq, Eq, Structural)]
pub enum FinishStep {
    /// Write out the buffer and code again.
    Again,
    /// The stream has ended: write out the buffer and stop.
    Done,
    /// The compressed stream is truncated or otherwise corrupt.
    Truncated,
}

/// The step after a finishing call that reported `status` and left
/// `buf_len` bytes of output: a decoder that can make no progress and has
/// produced nothing is looking at a truncated stream.
pub open spec fn finish_step_spec(kind: CoderKind, buf_len: usize, status: Status) -> FinishStep {
    if kind == CoderKind::Decoder && buf_len == 0 && status == Status::MemNeeded {
        FinishStep::Truncated
    } else if status == Status::StreamEnd {
        FinishStep::Done
    } else {
        FinishStep::Again
    }
}

/// Decides the step after a finishing call (see `finish_step_spec`).
pub fn finish_step(kind: CoderKind, buf_len: usize, status: Status) -> (r: FinishStep)
    ensures
        r == finish_step_spec(kind, buf_len, status),
{
    if kind == CoderKind::Decoder && buf_len == 0 && status == Status::MemNeeded {
        FinishStep::Truncated
    } else if status == Status::StreamEnd {
        FinishStep::Done
    } else {
        FinishStep::Again
    }
}

/// Message of the error that a truncated compressed stream gives.
pub open spec fn truncated_message() -> Seq<char> {
    "xz compressed stream is truncated or otherwise corrupt"@
}

/// The message of the error that a truncated compressed stream gives.
pub fn truncated_error_message() -> (r: &'static str)
    ensures
        r@ == truncated_message(),
{
    "xz compressed stream is truncated or otherwise corrupt"
}

/// Removes from the front of the output buffer the `n` bytes the inner
/// writer accepted. Returns false, leaving the buffer as it was, when it
/// accepted none: the writer is then stuck.
pub fn drain_written(buf: &mut Vec<u8>, n: usize) -> (r: bool)
    requires
        n <= old(buf)@.len(),
    ensures
        r == (n > 0),
        r ==> final(buf)@ == old(buf)@.skip(n as int),
        !r ==> final(buf)@ == old(buf)@,
{
    if n == 0 {
        return false;
    }
    let ghost b0 = buf@;
    let len = buf.len();
    let mut rest: Vec<u8> = Vec::with_capacity(len - n);
    let mut k = n;
    while k < len
        invariant
            n <= k <= len,
            len == b0.len(),
            buf@ == b0,
            rest@ == b0.subrange(n as int, k as int),
        decreases len - k,
    {
        rest.push(buf[k]);
        k = k + 1;
        assert(rest@ =~= b0.subrange(n as int, k as int));
    }
    *buf = rest;
    assert(buf@ =~= b0.skip(n as int));
    true
}

/// Length of an output vector of `len` bytes after a coding call that took
/// the stream's output total from `before` to `after`.
pub fn grown_len(len: usize, before: u64, after: u64) -> (r: usize)
    requires
        before <= after,
        len + (after - before) <= usize::MAX,
    ensures
        r == len + (after - before),
{
    (after - before) as usize + len
}

/// Where a writer puts what it produces.
pub trait XzSink: Sized {
    /// The bytes put so far.
    spec fn written(&self) -> Seq<u8>;

    /// The writer takes `data` without failing.
    spec fn accepts(&self, data: Seq<u8>) -> bool;

    /// Puts `data` after what was put before.
    fn put(&mut self, data: &[u8]) -> (r: Result<(), Error>)
        ensures
            r is Ok ==> final(self).written() == old(self).written() + data@,
            old(self).accepts(data@) ==> r is Ok;
}

impl XzSink for Vec<u8> {
    open spec fn written(&self) -> Seq<u8> {
        self@
    }

    open spec fn accepts(&self, data: Seq<u8>) -> bool {
        true
    }

    fn put(&mut self, data: &[u8]) -> (r: Result<(), Error>) {
        append_bytes(self, data);
        Ok(())
    }
}

/// Appends `data` to `v`.
fn append_bytes(v: &mut Vec<u8>, data: &[u8])
    ensures
        final(v)@ == old(v)@ + data@,
{
    let ghost o = v@;
    let mut i: usize = 0;
    while i < data.len()
        invariant
            i <= data@.len(),
            v@ == o + data@.take(i as int),
        decreases data.len() - i,
    {
        v.push(data[i]);
        i = i + 1;
        assert(v@ =~= o + data@.take(i as int));
    }
    assert(data@.take(data@.len() as int) =~= data@);
}

/// The error that the return code `rc` stands for (`Error::Program` for a
/// code that is no error).
pub open spec fn error_of_code(rc: u32) -> Error {
    if rc <= LZMA_PROG_ERROR {
        match ret_result(rc) {
            Err(e) => e,
            Ok(_) => Error::Program,
        }
    } else {
        Error::Program
    }
}

/// The error of a return code (see `error_of_code`).
fn error_of(rc: u32) -> (r: Error)
    ensures
        r == error_of_code(rc),
{
    if rc <= LZMA_PROG_ERROR {
        match cvt(rc) {
            Err(e) => e,
            Ok(_) => Error::Program,
        }
    } else {
        Error::Program
    }
}

/// A writer that compresses what is written to it into `obj` as one .xz
/// Stream with a CRC64 check, when it is finished. The compression preset is
/// kept; the Block stores the data as uncompressed LZMA2 chunks, as this
/// library holds no LZMA encoder.
pub struct XzEncoder<W: XzSink> {
    obj: W,
    preset: u32,
    data: Vec<u8>,
}

impl<W: XzSink> XzEncoder<W> {
    /// The bytes written so far.
    pub closed spec fn pending(&self) -> Seq<u8> {
        self.data@
    }

    /// The writer the Stream goes to.
    pub closed spec fn inner(&self) -> W {
        self.obj
    }

    /// The compression preset.
    pub closed spec fn preset_of(&self) -> u32 {
        self.preset
    }

    /// A compressor into `obj` with the preset `level` (0 to 9, possibly
    /// with `PRESET_EXTREME`).
    pub fn new(obj: W, level: u32) -> (r: XzEncoder<W>)
        requires
            preset_options(level) is Some,
        ensures
            r.pending() == Seq::<u8>::empty(),
            r.inner() == obj,
            r.preset_of() == level,
    {
        XzEncoder { obj, preset: level, data: Vec::new() }
    }

    /// Takes all of `buf`; returns its length.
    pub fn write(&mut self, buf: &[u8]) -> (r: Result<usize, Error>)
        requires
            old(self).pending().len() + buf@.len() < sha256_len_limit(),
        ensures
            r == Ok::<usize, Error>(buf.len()),
            final(self).pending() == old(self).pending() + buf@,
            final(self).inner() == old(self).inner(),
            final(self).preset_of() == old(self).preset_of(),
    {
        append_bytes(&mut self.data, buf);
        Ok(buf.len())
    }

    /// Takes all of `buf`.
    pub fn write_all(&mut self, buf: &[u8]) -> (r: Result<(), Error>)
        requires
            old(self).pending().len() + buf@.len() < sha256_len_limit(),
        ensures
            r is Ok,
            final(self).pending() == old(self).pending() + buf@,
            final(self).inner() == old(self).inner(),
            final(self).preset_of() == old(self).preset_of(),
    {
        append_bytes(&mut self.data, buf);
        Ok(())
    }

    /// Writes the Stream of everything written into the inner writer and
    /// gives that writer back: the Stream is `stored_stream_result` of the
    /// data with a CRC64 check, or its error; then the error of the inner
    /// writer, if it fails.
    pub fn finish(self) -> (r: Result<W, Error>)
        requires
            self.pending().len() < sha256_len_limit(),
        ensures
            match stored_stream_result(self.pending(), LZMA_CHECK_CRC64) {
                Ok(s) => {
                    &&& self.inner().accepts(s) ==> r is Ok
                    &&& r matches Ok(w) ==> w.written() == self.inner().written() + s
                },
                Err(e) => r == Err::<W, Error>(error_of_code(e)),
            },
            stored_size_ok(self.pending()) ==> stored_stream_result(self.pending(), LZMA_CHECK_CRC64)
                is Ok,
    {
        proof {
            if stored_size_ok(self.pending()) {
                law_stored_stream_ok(self.pending(), LZMA_CHECK_CRC64);
            }
        }
        let mut obj = self.obj;
        match xz_stored_encode(self.data.as_slice(), LZMA_CHECK_CRC64) {
            Ok(bytes) => {
                match obj.put(bytes.as_slice()) {
                    Ok(()) => Ok(obj),
                    Err(e) => Err(e),
                }
            },
            Err(rc) => Err(error_of(rc)),
        }
    }
}

/// A writer that decompresses the .xz Streams written to it into `obj`,
/// when it is finished (see `xz_stored_decode` for what it reads).
pub struct XzDecoder<W: XzSink> {
    obj: W,
    data: Vec<u8>,
}

impl<W: XzSink> XzDecoder<W> {
    /// The bytes written so far.
    pub closed spec fn pending(&self) -> Seq<u8> {
        self.data@
    }

    /// The writer the data goes to.
    pub closed spec fn inner(&self) -> W {
        self.obj
    }

    /// A decompressor into `obj`.
    pub fn new(obj: W) -> (r: XzDecoder<W>)
        ensures
            r.pending() == Seq::<u8>::empty(),
            r.inner() == obj,
    {
        XzDecoder { obj, data: Vec::new() }
    }

    /// Takes all of `buf`; returns its length.
    pub fn write(&mut self, buf: &[u8]) -> (r: Result<usize, Error>)
        ensures
            r == Ok::<usize, Error>(buf.len()),
            final(self).pending() == old(self).pending() + buf@,
            final(self).inner() == old(self).inner(),
    {
        append_bytes(&mut self.data, buf);
        Ok(buf.len())
    }

    /// Takes all of `buf`.
    pub fn write_all(&mut self, buf: &[u8]) -> (r: Result<(), Error>)
        ensures
            r is Ok,
            final(self).pending() == old(self).pending() + buf@,
            final(self).inner() == old(self).inner(),
    {
        append_bytes(&mut self.data, buf);
        Ok(())
    }

    /// Decodes everything written and puts the data into the inner writer,
    /// which it gives back; the error of decoding (as `cvt` maps the return
    /// code) or of the inner writer. What was written is read as
    /// `xz_stored_decode` says: a Stream that stores some data gives that
    /// data.
    pub fn finish(self) -> (r: Result<W, Error>)
        ensures
            self.pending().len() < 12 ==> r == Err::<W, Error>(Error::Data),
            forall|d: Seq<u8>, c: u32|
                #[trigger] is_stored_stream(self.pending(), d, c) ==> {
                    &&& self.inner().accepts(d) ==> r is Ok
                    &&& r matches Ok(w) ==> w.written() == self.inner().written() + d
                },
    {
        let mut obj = self.obj;
        match xz_stored_decode(self.data.as_slice()) {
            Ok(out) => {
                match obj.put(out.as_slice()) {
                    Ok(()) => Ok(obj),
                    Err(e) => Err(e),
                }
            },
            Err(rc) => Err(error_of(rc)),
        }
    }
}

impl<W: XzSink> XzSink for XzDecoder<W> {
    closed spec fn written(&self) -> Seq<u8> {
        self.data@
    }

    open spec fn accepts(&self, data: Seq<u8>) -> bool {
        true
    }

    fn put(&mut self, data: &[u8]) -> (r: Result<(), Error>) {
        append_bytes(&mut self.data, data);
        Ok(())
    }
}

} // verus!
