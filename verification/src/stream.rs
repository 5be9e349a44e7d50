//! The stream interface: actions, statuses and errors, LZMA options, filter
//! chains, the settings of a multithreaded coder, and the bookkeeping that
//! every call of a coder goes through.
use vstd::prelude::*;
use crate::check::check_supported_spec;
use crate::check::lzma_check_is_supported;
use crate::filter::{
    lemma_chain_len_exact, lzma_properties_decode, props_decoded, Filter, FilterOptions, LzmaRaw, LZMA_MF_BT2,
    LZMA_MF_BT3, LZMA_MF_BT4, LZMA_MF_HC3, LZMA_MF_HC4, LZMA_MODE_FAST, LZMA_MODE_NORMAL,
};
use crate::preset::{lzma_lzma_preset, lzma_mt_block_size, mt_block_size_of, preset_options};
use crate::types::{
    LZMA_BUF_ERROR, LZMA_CHECK_CRC32, LZMA_CHECK_CRC64, LZMA_CHECK_NONE, LZMA_CHECK_SHA256,
    LZMA_CONCATENATED, LZMA_DATA_ERROR, LZMA_FILTER_ARM, LZMA_FILTER_ARM64, LZMA_FILTER_ARMTHUMB,
    LZMA_FILTER_DELTA, LZMA_FILTER_IA64, LZMA_FILTER_LZMA1, LZMA_FILTER_LZMA2,
    LZMA_FILTER_POWERPC, LZMA_FILTER_RISCV, LZMA_FILTER_SPARC, LZMA_FILTER_X86,
    LZMA_FORMAT_ERROR, LZMA_GET_CHECK, LZMA_IGNORE_CHECK, LZMA_MEMLIMIT_ERROR, LZMA_MEM_ERROR,
    LZMA_NO_CHECK, LZMA_OK, LZMA_OPTIONS_ERROR, LZMA_PRESET_DEFAULT, LZMA_PRESET_EXTREME,
    LZMA_PRESET_LEVEL_MASK, LZMA_PROG_ERROR, LZMA_SEEK_NEEDED, LZMA_STREAM_END,
    LZMA_TELL_ANY_CHECK, LZMA_TELL_NO_CHECK, LZMA_TELL_UNSUPPORTED_CHECK, LZMA_TIMED_OUT,
    LZMA_UNSUPPORTED_CHECK, LZMA_VLI_UNKNOWN,
};

verus! {

/// Action code: continue coding.
pub const LZMA_RUN: u32 = 0;
/// Action code: make all the input available at output.
pub const LZMA_SYNC_FLUSH: u32 = 1;
/// Action code: finish the current Block.
pub const LZMA_FULL_FLUSH: u32 = 2;
/// Action code: finish the operation.
pub const LZMA_FINISH: u32 = 3;
/// Action code: finish the current Block without waiting for the output.
pub const LZMA_FULL_BARRIER: u32 = 4;

/// The `action` argument of a coding call.
#[derive(Debug, Copy, Clone, PartialEq, Eq, Structural)]
pub enum Action {
    /// Continue processing: code as much input as possible.
    Run,
    /// Make all the input available at output without resetting the encoder.
    SyncFlush,
    /// Finish encoding of the current Block, making all input available.
    FullFlush,
    /// Finish encoding of the current Block, not waiting for the output.
    FullBarrier,
    /// Finish the current operation.
    Finish,
}

/// The action code of `a`.
pub open spec fn action_code(a: Action) -> u32 {
    match a {
        Action::Run => LZMA_RUN,
        Action::SyncFlush => LZMA_SYNC_FLUSH,
        Action::FullFlush => LZMA_FULL_FLUSH,
        Action::FullBarrier => LZMA_FULL_BARRIER,
        Action::Finish => LZMA_FINISH,
    }
}

impl Action {
    /// The action code that the coders take.
    pub fn to_raw(self) -> (r: u32)
        ensures
            r == action_code(self),
    {
        match self {
            Action::Run => LZMA_RUN,
            Action::SyncFlush => LZMA_SYNC_FLUSH,
            Action::FullFlush => LZMA_FULL_FLUSH,
            Action::FullBarrier => LZMA_FULL_BARRIER,
            Action::Finish => LZMA_FINISH,
        }
    }
}

/// Outcome of a successful coding call.
#[derive(Debug, Copy, Clone, PartialEq, Eq, Structural)]
pub enum Status {
    /// Operation completed successfully.
    Success,
    /// End of stream was reached, or a flush or finish was completed.
    StreamEnd,
    /// The integrity check of the stream being decoded is now known.
    GetCheck,
    /// No progress is possible; more input or output space is needed.
    MemNeeded,
}

/// Error codes of a coding call.
#[derive(Debug, Clone, Copy, PartialEq, Eq, Structural)]
pub enum Error {
    /// The underlying data was corrupt.
    Data,
    /// Invalid or unsupported options were specified.
    Options,
    /// File format wasn't recognized.
    Format,
    /// Memory usage limit was reached.
    MemLimit,
    /// Memory couldn't be allocated.
    Mem,
    /// A programming error was encountered.
    Program,
    /// No integrity check was available for the stream (`TELL_NO_CHECK`).
    NoCheck,
    /// The integrity check of the stream isn't supported (`TELL_UNSUPPORTED_CHECK`).
    UnsupportedCheck,
}

/// The return codes that `cvt` knows.
pub open spec fn ret_is_known(rc: u32) -> bool {
    rc <= LZMA_PROG_ERROR
}

/// What a return code means: the status of a successful call, or the error.
pub open spec fn ret_result(rc: u32) -> Result<Status, Error> {
    if rc == LZMA_OK {
        Ok(Status::Success)
    } else if rc == LZMA_STREAM_END {
        Ok(Status::StreamEnd)
    } else if rc == LZMA_NO_CHECK {
        Err(Error::NoCheck)
    } else if rc == LZMA_UNSUPPORTED_CHECK {
        Err(Error::UnsupportedCheck)
    } else if rc == LZMA_GET_CHECK {
        Ok(Status::GetCheck)
    } else if rc == LZMA_MEM_ERROR {
        Err(Error::Mem)
    } else if rc == LZMA_MEMLIMIT_ERROR {
        Err(Error::MemLimit)
    } else if rc == LZMA_FORMAT_ERROR {
        Err(Error::Format)
    } else if rc == LZMA_OPTIONS_ERROR {
        Err(Error::Options)
    } else if rc == LZMA_DATA_ERROR {
        Err(Error::Data)
    } else if rc == LZMA_BUF_ERROR {
        Ok(Status::MemNeeded)
    } else {
        Err(Error::Program)
    }
}

/// Turns a return code into the status or the error it stands for.
pub fn cvt(rc: u32) -> (r: Result<Status, Error>)
    requires
        ret_is_known(rc),
    ensures
        r == ret_result(rc),
{
    if rc == LZMA_OK {
        Ok(Status::Success)
    } else if rc == LZMA_STREAM_END {
        Ok(Status::StreamEnd)
    } else if rc == LZMA_NO_CHECK {
        Err(Error::NoCheck)
    } else if rc == LZMA_UNSUPPORTED_CHECK {
        Err(Error::UnsupportedCheck)
    } else if rc == LZMA_GET_CHECK {
        Ok(Status::GetCheck)
    } else if rc == LZMA_MEM_ERROR {
        Err(Error::Mem)
    } else if rc == LZMA_MEMLIMIT_ERROR {
        Err(Error::MemLimit)
    } else if rc == LZMA_FORMAT_ERROR {
        Err(Error::Format)
    } else if rc == LZMA_OPTIONS_ERROR {
        Err(Error::Options)
    } else if rc == LZMA_DATA_ERROR {
        Err(Error::Data)
    } else if rc == LZMA_BUF_ERROR {
        Ok(Status::MemNeeded)
    } else {
        Err(Error::Program)
    }
}

/// The text that describes an error.
pub open spec fn error_message(e: Error) -> Seq<char> {
    match e {
        Error::Data => "lzma data error"@,
        Error::Options => "invalid options"@,
        Error::Format => "stream/file format not recognized"@,
        Error::MemLimit => "memory limit reached"@,
        Error::Mem => "can't allocate memory"@,
        Error::Program => "liblzma internal error"@,
        Error::NoCheck => "no integrity check was available"@,
        Error::UnsupportedCheck => "liblzma not built with check support"@,
    }
}

impl Error {
    /// The text that describes the error.
    pub fn message(&self) -> (r: &'static str)
        ensures
            r@ == error_message(*self),
    {
        match self {
            Error::Data => "lzma data error",
            Error::Options => "invalid options",
            Error::Format => "stream/file format not recognized",
            Error::MemLimit => "memory limit reached",
            Error::Mem => "can't allocate memory",
            Error::Program => "liblzma internal error",
            Error::NoCheck => "no integrity check was available",
            Error::UnsupportedCheck => "liblzma not built with check support",
        }
    }
}

/// Integrity checks that can end the Blocks of a .xz stream.
#[derive(Debug, Copy, Clone, PartialEq, Eq, Structural)]
pub enum Check {
    /// No check.
    NoCheck,
    /// CRC32.
    Crc32,
    /// CRC64.
    Crc64,
    /// SHA-256.
    Sha256,
}

/// The check ID of `c`.
pub open spec fn check_code(c: Check) -> u32 {
    match c {
        Check::NoCheck => LZMA_CHECK_NONE,
        Check::Crc32 => LZMA_CHECK_CRC32,
        Check::Crc64 => LZMA_CHECK_CRC64,
        Check::Sha256 => LZMA_CHECK_SHA256,
    }
}

impl Check {
    /// The check ID written in the Stream Flags.
    pub fn to_raw(self) -> (r: u32)
        ensures
            r == check_code(self),
    {
        match self {
            Check::NoCheck => LZMA_CHECK_NONE,
            Check::Crc32 => LZMA_CHECK_CRC32,
            Check::Crc64 => LZMA_CHECK_CRC64,
            Check::Sha256 => LZMA_CHECK_SHA256,
        }
    }

    /// Tells whether this library can calculate the check.
    pub fn is_supported(&self) -> (r: bool)
        ensures
            r == check_supported_spec(check_code(*self)),
    {
        lzma_check_is_supported(self.to_raw())
    }
}

/// Compression modes: the function that analyses the matches found.
#[derive(Debug, Copy, Clone, PartialEq, Eq, Structural)]
pub enum Mode {
    /// Fast compression.
    Fast,
    /// Normal compression.
    Normal,
}

/// The mode code of `m`.
pub open spec fn mode_code(m: Mode) -> u32 {
    match m {
        Mode::Fast => LZMA_MODE_FAST,
        Mode::Normal => LZMA_MODE_NORMAL,
    }
}

impl Mode {
    /// The mode code of the LZMA options.
    pub fn to_raw(self) -> (r: u32)
        ensures
            r == mode_code(self),
    {
        match self {
            Mode::Fast => LZMA_MODE_FAST,
            Mode::Normal => LZMA_MODE_NORMAL,
        }
    }
}

/// Match finders.
#[derive(Debug, Copy, Clone, PartialEq, Eq, Structural)]
pub enum MatchFinder {
    /// Hash chain with 2- and 3-byte hashing.
    HashChain3,
    /// Hash chain with 2-, 3- and 4-byte hashing.
    HashChain4,
    /// Binary tree with 2-byte hashing.
    BinaryTree2,
    /// Binary tree with 2- and 3-byte hashing.
    BinaryTree3,
    /// Binary tree with 2-, 3- and 4-byte hashing.
    BinaryTree4,
}

/// The match finder code of `mf`.
pub open spec fn match_finder_code(mf: MatchFinder) -> u32 {
    match mf {
        MatchFinder::HashChain3 => LZMA_MF_HC3,
        MatchFinder::HashChain4 => LZMA_MF_HC4,
        MatchFinder::BinaryTree2 => LZMA_MF_BT2,
        MatchFinder::BinaryTree3 => LZMA_MF_BT3,
        MatchFinder::BinaryTree4 => LZMA_MF_BT4,
    }
}

impl MatchFinder {
    /// The match finder code of the LZMA options.
    pub fn to_raw(self) -> (r: u32)
        ensures
            r == match_finder_code(self),
    {
        match self {
            MatchFinder::HashChain3 => LZMA_MF_HC3,
            MatchFinder::HashChain4 => LZMA_MF_HC4,
            MatchFinder::BinaryTree2 => LZMA_MF_BT2,
            MatchFinder::BinaryTree3 => LZMA_MF_BT3,
            MatchFinder::BinaryTree4 => LZMA_MF_BT4,
        }
    }
}

/// Decoder flag: report `Status::GetCheck` as soon as the check is known.
pub const TELL_ANY_CHECK: u32 = LZMA_TELL_ANY_CHECK;
/// Decoder flag: report `Error::NoCheck` for a stream without a check.
pub const TELL_NO_CHECK: u32 = LZMA_TELL_NO_CHECK;
/// Decoder flag: report `Error::UnsupportedCheck` for a check that cannot be verified.
pub const TELL_UNSUPPORTED_CHECK: u32 = LZMA_TELL_UNSUPPORTED_CHECK;
/// Decoder flag: do not verify the integrity checks.
pub const IGNORE_CHECK: u32 = LZMA_IGNORE_CHECK;

/// Decoder flag: the input may hold several concatenated .xz streams.
pub const CONCATENATED: u32 = LZMA_CONCATENATED;
/// Default compression preset level.
pub const PRESET_DEFAULT: u32 = LZMA_PRESET_DEFAULT;
/// Mask of the level bits of a preset.
pub const PRESET_LEVEL_MASK: u32 = LZMA_PRESET_LEVEL_MASK;
/// Flag of the slower "extreme" variant of a preset.
pub const PRESET_EXTREME: u32 = LZMA_PRESET_EXTREME;

/// LZMA options with every field zero.
pub open spec fn zero_options() -> LzmaRaw {
    LzmaRaw { dict_size: 0, lc: 0, lp: 0, pb: 0, mode: 0, nice_len: 0, mf: 0, depth: 0 }
}

/// Options that configure how LZMA encoding happens.
#[derive(Clone, Copy, Debug)]
pub struct LzmaOptions {
    raw: LzmaRaw,
}

impl View for LzmaOptions {
    type V = LzmaRaw;

    /// The options held.
    closed spec fn view(&self) -> LzmaRaw {
        self.raw
    }
}

impl LzmaOptions {
    /// Creates a blank set of options, every field zero.
    pub fn new() -> (r: LzmaOptions)
        ensures
            r@ == zero_options(),
    {
        LzmaOptions {
            raw: LzmaRaw { dict_size: 0, lc: 0, lp: 0, pb: 0, mode: 0, nice_len: 0, mf: 0, depth: 0 },
        }
    }

    /// Creates the options of compression preset `preset` (a level 0-9,
    /// possibly with `PRESET_EXTREME`); `Error::Program` for any other value.
    pub fn new_preset(preset: u32) -> (r: Result<LzmaOptions, Error>)
        ensures
            match preset_options(preset) {
                Some(o) => r matches Ok(opts) && opts@ == o,
                None => r == Err::<LzmaOptions, Error>(Error::Program),
            },
    {
        let mut options = LzmaOptions::new();
        if lzma_lzma_preset(&mut options.raw, preset) {
            Err(Error::Program)
        } else {
            Ok(options)
        }
    }

    /// The options as the coders take them.
    pub fn raw(&self) -> (r: LzmaRaw)
        ensures
            r == self@,
    {
        self.raw
    }

    /// Configures the dictionary size, in bytes.
    pub fn dict_size(&mut self, size: u32) -> (r: &mut LzmaOptions)
        ensures
            r@ == (LzmaRaw { dict_size: size, ..old(self)@ }),
            *final(self) == *final(r),
    {
        self.raw.dict_size = size;
        self
    }

    /// Configures the number of literal context bits.
    pub fn literal_context_bits(&mut self, bits: u32) -> (r: &mut LzmaOptions)
        ensures
            r@ == (LzmaRaw { lc: bits, ..old(self)@ }),
            *final(self) == *final(r),
    {
        self.raw.lc = bits;
        self
    }

    /// Configures the number of literal position bits.
    pub fn literal_position_bits(&mut self, bits: u32) -> (r: &mut LzmaOptions)
        ensures
            r@ == (LzmaRaw { lp: bits, ..old(self)@ }),
            *final(self) == *final(r),
    {
        self.raw.lp = bits;
        self
    }

    /// Configures the number of position bits.
    pub fn position_bits(&mut self, bits: u32) -> (r: &mut LzmaOptions)
        ensures
            r@ == (LzmaRaw { pb: bits, ..old(self)@ }),
            *final(self) == *final(r),
    {
        self.raw.pb = bits;
        self
    }

    /// Configures the compression mode.
    pub fn mode(&mut self, mode: Mode) -> (r: &mut LzmaOptions)
        ensures
            r@ == (LzmaRaw { mode: mode_code(mode), ..old(self)@ }),
            *final(self) == *final(r),
    {
        self.raw.mode = mode.to_raw();
        self
    }

    /// Configures the nice length of a match.
    pub fn nice_len(&mut self, len: u32) -> (r: &mut LzmaOptions)
        ensures
            r@ == (LzmaRaw { nice_len: len, ..old(self)@ }),
            *final(self) == *final(r),
    {
        self.raw.nice_len = len;
        self
    }

    /// Configures the match finder.
    pub fn match_finder(&mut self, mf: MatchFinder) -> (r: &mut LzmaOptions)
        ensures
            r@ == (LzmaRaw { mf: match_finder_code(mf), ..old(self)@ }),
            *final(self) == *final(r),
    {
        self.raw.mf = mf.to_raw();
        self
    }

    /// Configures the maximum search depth of the match finder (0: automatic).
    pub fn depth(&mut self, depth: u32) -> (r: &mut LzmaOptions)
        ensures
            r@ == (LzmaRaw { depth: depth, ..old(self)@ }),
            *final(self) == *final(r),
    {
        self.raw.depth = depth;
        self
    }
}

/// A chain of filters, ended by an `LZMA_VLI_UNKNOWN` ID.
pub struct Filters {
    inner: Vec<Filter>,
}

/// The filter `id` without options.
pub open spec fn bare_filter(id: u64) -> Filter {
    Filter { id, options: FilterOptions::Absent }
}

impl View for Filters {
    type V = Seq<Filter>;

    /// The filters of the chain, without its end marker.
    closed spec fn view(&self) -> Seq<Filter> {
        self.inner@.drop_last()
    }
}

impl Filters {
    #[verifier::type_invariant]
    closed spec fn ends_once(&self) -> bool {
        &&& self.inner@.len() >= 1
        &&& self.inner@.last() == (Filter { id: LZMA_VLI_UNKNOWN, options: FilterOptions::Absent })
        &&& forall|i: int| 0 <= i < self.inner@.len() - 1 ==> #[trigger] self.inner@[i].id != LZMA_VLI_UNKNOWN
        &&& forall|i: int| 0 <= i < self.inner@.len() && #[trigger] self.inner@[i].id == LZMA_FILTER_LZMA2
            ==> self.inner@[i].options is Lzma
    }

    /// Creates a chain with no filters.
    pub fn new() -> (r: Filters)
        ensures
            r@ == Seq::<Filter>::empty(),
    {
        let mut inner: Vec<Filter> = Vec::new();
        inner.push(Filter { id: LZMA_VLI_UNKNOWN, options: FilterOptions::Absent });
        Filters { inner }
    }

    /// The chain with its end marker, as the coders take it.
    pub fn as_slice(&self) -> (r: &[Filter])
        ensures
            r@ == self@.push(Filter { id: LZMA_VLI_UNKNOWN, options: FilterOptions::Absent }),
    {
        proof {
            use_type_invariant(self);
        }
        assert(self.inner@ =~= self@.push(Filter { id: LZMA_VLI_UNKNOWN, options: FilterOptions::Absent }));
        self.inner.as_slice()
    }

    /// Adds an LZMA1 filter with options `opts`.
    pub fn lzma1(&mut self, opts: &LzmaOptions) -> (r: &mut Filters)
        ensures
            r@ == old(self)@.push(Filter { id: LZMA_FILTER_LZMA1, options: FilterOptions::Lzma(opts@) }),
            *final(self) == *final(r),
    {
        self.push(Filter { id: LZMA_FILTER_LZMA1, options: FilterOptions::Lzma(opts.raw) })
    }

    /// Adds an LZMA2 filter with options `opts`.
    pub fn lzma2(&mut self, opts: &LzmaOptions) -> (r: &mut Filters)
        ensures
            r@ == old(self)@.push(Filter { id: LZMA_FILTER_LZMA2, options: FilterOptions::Lzma(opts@) }),
            *final(self) == *final(r),
    {
        self.push(Filter { id: LZMA_FILTER_LZMA2, options: FilterOptions::Lzma(opts.raw) })
    }

    /// Adds a delta filter, without options.
    pub fn delta(&mut self) -> (r: &mut Filters)
        ensures
            r@ == old(self)@.push(bare_filter(LZMA_FILTER_DELTA)),
            *final(self) == *final(r),
    {
        self.push(Filter { id: LZMA_FILTER_DELTA, options: FilterOptions::Absent })
    }

    /// Adds a filter for x86 binaries, without options.
    pub fn x86(&mut self) -> (r: &mut Filters)
        ensures
            r@ == old(self)@.push(bare_filter(LZMA_FILTER_X86)),
            *final(self) == *final(r),
    {
        self.push(Filter { id: LZMA_FILTER_X86, options: FilterOptions::Absent })
    }

    /// Adds a filter for PowerPC binaries, without options.
    pub fn powerpc(&mut self) -> (r: &mut Filters)
        ensures
            r@ == old(self)@.push(bare_filter(LZMA_FILTER_POWERPC)),
            *final(self) == *final(r),
    {
        self.push(Filter { id: LZMA_FILTER_POWERPC, options: FilterOptions::Absent })
    }

    /// Adds a filter for IA-64 (Itanium) binaries, without options.
    pub fn ia64(&mut self) -> (r: &mut Filters)
        ensures
            r@ == old(self)@.push(bare_filter(LZMA_FILTER_IA64)),
            *final(self) == *final(r),
    {
        self.push(Filter { id: LZMA_FILTER_IA64, options: FilterOptions::Absent })
    }

    /// Adds a filter for ARM binaries, without options.
    pub fn arm(&mut self) -> (r: &mut Filters)
        ensures
            r@ == old(self)@.push(bare_filter(LZMA_FILTER_ARM)),
            *final(self) == *final(r),
    {
        self.push(Filter { id: LZMA_FILTER_ARM, options: FilterOptions::Absent })
    }

    /// Adds a filter for ARM64 binaries, without options.
    pub fn arm64(&mut self) -> (r: &mut Filters)
        ensures
            r@ == old(self)@.push(bare_filter(LZMA_FILTER_ARM64)),
            *final(self) == *final(r),
    {
        self.push(Filter { id: LZMA_FILTER_ARM64, options: FilterOptions::Absent })
    }

    /// Adds a filter for RISC-V binaries, without options.
    pub fn riscv(&mut self) -> (r: &mut Filters)
        ensures
            r@ == old(self)@.push(bare_filter(LZMA_FILTER_RISCV)),
            *final(self) == *final(r),
    {
        self.push(Filter { id: LZMA_FILTER_RISCV, options: FilterOptions::Absent })
    }

    /// Adds a filter for ARM-Thumb binaries, without options.
    pub fn arm_thumb(&mut self) -> (r: &mut Filters)
        ensures
            r@ == old(self)@.push(bare_filter(LZMA_FILTER_ARMTHUMB)),
            *final(self) == *final(r),
    {
        self.push(Filter { id: LZMA_FILTER_ARMTHUMB, options: FilterOptions::Absent })
    }

    /// Adds a filter for SPARC binaries, without options.
    pub fn sparc(&mut self) -> (r: &mut Filters)
        ensures
            r@ == old(self)@.push(bare_filter(LZMA_FILTER_SPARC)),
            *final(self) == *final(r),
    {
        self.push(Filter { id: LZMA_FILTER_SPARC, options: FilterOptions::Absent })
    }

    /// Adds an LZMA1 filter with the options that the Filter Properties
    /// `properties` encode; `Error::Options`, leaving the chain as it was, for
    /// properties that do not decode.
    pub fn lzma1_properties(&mut self, properties: &[u8]) -> (r: Result<&mut Filters, Error>)
        ensures
            match props_decoded(LZMA_FILTER_LZMA1, properties@) {
                Ok(o) => r matches Ok(f) && f@ == old(self)@.push(Filter { id: LZMA_FILTER_LZMA1, options: o })
                    && *final(self) == *final(f),
                Err(e) => r == Err::<&mut Filters, Error>(Error::Options) && final(self)@ == old(self)@,
            },
    {
        self.push_with_properties(LZMA_FILTER_LZMA1, properties)
    }

    /// Adds an LZMA2 filter with the options that the Filter Properties
    /// `properties` encode; `Error::Options`, leaving the chain as it was, for
    /// properties that do not decode.
    pub fn lzma2_properties(&mut self, properties: &[u8]) -> (r: Result<&mut Filters, Error>)
        ensures
            match props_decoded(LZMA_FILTER_LZMA2, properties@) {
                Ok(o) => r matches Ok(f) && f@ == old(self)@.push(Filter { id: LZMA_FILTER_LZMA2, options: o })
                    && *final(self) == *final(f),
                Err(e) => r == Err::<&mut Filters, Error>(Error::Options) && final(self)@ == old(self)@,
            },
    {
        self.push_with_properties(LZMA_FILTER_LZMA2, properties)
    }

    /// Adds a delta filter with the options that the Filter Properties
    /// `properties` encode; `Error::Options`, leaving the chain as it was, for
    /// properties that do not decode.
    pub fn delta_properties(&mut self, properties: &[u8]) -> (r: Result<&mut Filters, Error>)
        ensures
            match props_decoded(LZMA_FILTER_DELTA, properties@) {
                Ok(o) => r matches Ok(f) && f@ == old(self)@.push(Filter { id: LZMA_FILTER_DELTA, options: o })
                    && *final(self) == *final(f),
                Err(e) => r == Err::<&mut Filters, Error>(Error::Options) && final(self)@ == old(self)@,
            },
    {
        self.push_with_properties(LZMA_FILTER_DELTA, properties)
    }

    /// Adds a filter for x86 binaries with the options that the Filter Properties
    /// `properties` encode; `Error::Options`, leaving the chain as it was, for
    /// properties that do not decode.
    pub fn x86_properties(&mut self, properties: &[u8]) -> (r: Result<&mut Filters, Error>)
        ensures
            match props_decoded(LZMA_FILTER_X86, properties@) {
                Ok(o) => r matches Ok(f) && f@ == old(self)@.push(Filter { id: LZMA_FILTER_X86, options: o })
                    && *final(self) == *final(f),
                Err(e) => r == Err::<&mut Filters, Error>(Error::Options) && final(self)@ == old(self)@,
            },
    {
        self.push_with_properties(LZMA_FILTER_X86, properties)
    }

    /// Adds a filter for PowerPC binaries with the options that the Filter Properties
    /// `properties` encode; `Error::Options`, leaving the chain as it was, for
    /// properties that do not decode.
    pub fn powerpc_properties(&mut self, properties: &[u8]) -> (r: Result<&mut Filters, Error>)
        ensures
            match props_decoded(LZMA_FILTER_POWERPC, properties@) {
                Ok(o) => r matches Ok(f) && f@ == old(self)@.push(Filter { id: LZMA_FILTER_POWERPC, options: o })
                    && *final(self) == *final(f),
                Err(e) => r == Err::<&mut Filters, Error>(Error::Options) && final(self)@ == old(self)@,
            },
    {
        self.push_with_properties(LZMA_FILTER_POWERPC, properties)
    }

    /// Adds a filter for IA-64 (Itanium) binaries with the options that the Filter Properties
    /// `properties` encode; `Error::Options`, leaving the chain as it was, for
    /// properties that do not decode.
    pub fn ia64_properties(&mut self, properties: &[u8]) -> (r: Result<&mut Filters, Error>)
        ensures
            match props_decoded(LZMA_FILTER_IA64, properties@) {
                Ok(o) => r matches Ok(f) && f@ == old(self)@.push(Filter { id: LZMA_FILTER_IA64, options: o })
                    && *final(self) == *final(f),
                Err(e) => r == Err::<&mut Filters, Error>(Error::Options) && final(self)@ == old(self)@,
            },
    {
        self.push_with_properties(LZMA_FILTER_IA64, properties)
    }

    /// Adds a filter for ARM binaries with the options that the Filter Properties
    /// `properties` encode; `Error::Options`, leaving the chain as it was, for
    /// properties that do not decode.
    pub fn arm_properties(&mut self, properties: &[u8]) -> (r: Result<&mut Filters, Error>)
        ensures
            match props_decoded(LZMA_FILTER_ARM, properties@) {
                Ok(o) => r matches Ok(f) && f@ == old(self)@.push(Filter { id: LZMA_FILTER_ARM, options: o })
                    && *final(self) == *final(f),
                Err(e) => r == Err::<&mut Filters, Error>(Error::Options) && final(self)@ == old(self)@,
            },
    {
        self.push_with_properties(LZMA_FILTER_ARM, properties)
    }

    /// Adds a filter for ARM64 binaries with the options that the Filter Properties
    /// `properties` encode; `Error::Options`, leaving the chain as it was, for
    /// properties that do not decode.
    pub fn arm64_properties(&mut self, properties: &[u8]) -> (r: Result<&mut Filters, Error>)
        ensures
            match props_decoded(LZMA_FILTER_ARM64, properties@) {
                Ok(o) => r matches Ok(f) && f@ == old(self)@.push(Filter { id: LZMA_FILTER_ARM64, options: o })
                    && *final(self) == *final(f),
                Err(e) => r == Err::<&mut Filters, Error>(Error::Options) && final(self)@ == old(self)@,
            },
    {
        self.push_with_properties(LZMA_FILTER_ARM64, properties)
    }

    /// Adds a filter for RISC-V binaries with the options that the Filter Properties
    /// `properties` encode; `Error::Options`, leaving the chain as it was, for
    /// properties that do not decode.
    pub fn riscv_properties(&mut self, properties: &[u8]) -> (r: Result<&mut Filters, Error>)
        ensures
            match props_decoded(LZMA_FILTER_RISCV, properties@) {
                Ok(o) => r matches Ok(f) && f@ == old(self)@.push(Filter { id: LZMA_FILTER_RISCV, options: o })
                    && *final(self) == *final(f),
                Err(e) => r == Err::<&mut Filters, Error>(Error::Options) && final(self)@ == old(self)@,
            },
    {
        self.push_with_properties(LZMA_FILTER_RISCV, properties)
    }

    /// Adds a filter for ARM-Thumb binaries with the options that the Filter Properties
    /// `properties` encode; `Error::Options`, leaving the chain as it was, for
    /// properties that do not decode.
    pub fn arm_thumb_properties(&mut self, properties: &[u8]) -> (r: Result<&mut Filters, Error>)
        ensures
            match props_decoded(LZMA_FILTER_ARMTHUMB, properties@) {
                Ok(o) => r matches Ok(f) && f@ == old(self)@.push(Filter { id: LZMA_FILTER_ARMTHUMB, options: o })
                    && *final(self) == *final(f),
                Err(e) => r == Err::<&mut Filters, Error>(Error::Options) && final(self)@ == old(self)@,
            },
    {
        self.push_with_properties(LZMA_FILTER_ARMTHUMB, properties)
    }

    /// Adds a filter for SPARC binaries with the options that the Filter Properties
    /// `properties` encode; `Error::Options`, leaving the chain as it was, for
    /// properties that do not decode.
    pub fn sparc_properties(&mut self, properties: &[u8]) -> (r: Result<&mut Filters, Error>)
        ensures
            match props_decoded(LZMA_FILTER_SPARC, properties@) {
                Ok(o) => r matches Ok(f) && f@ == old(self)@.push(Filter { id: LZMA_FILTER_SPARC, options: o })
                    && *final(self) == *final(f),
                Err(e) => r == Err::<&mut Filters, Error>(Error::Options) && final(self)@ == old(self)@,
            },
    {
        self.push_with_properties(LZMA_FILTER_SPARC, properties)
    }

    /// Recommends a Block size for multithreaded encoding with this chain.
    pub fn mt_block_size(&self) -> (r: u64)
        ensures
            r == mt_block_size_of(self@.push(Filter { id: LZMA_VLI_UNKNOWN, options: FilterOptions::Absent })),
    {
        proof {
            use_type_invariant(self);
            let f = self.inner@;
            lemma_chain_len_exact(f, (f.len() - 1) as nat);
            assert(f =~= self@.push(Filter { id: LZMA_VLI_UNKNOWN, options: FilterOptions::Absent }));
            assert(f[f.len() - 1].id == LZMA_VLI_UNKNOWN);
        }
        lzma_mt_block_size(self.inner.as_slice())
    }

    fn push(&mut self, filter: Filter) -> (r: &mut Filters)
        requires
            filter.id != LZMA_VLI_UNKNOWN,
            filter.id == LZMA_FILTER_LZMA2 ==> filter.options is Lzma,
        ensures
            r@ == old(self)@.push(filter),
            *final(self) == *final(r),
    {
        proof {
            use_type_invariant(&*self);
        }
        let pos = self.inner.len() - 1;
        let mut v = self.inner.clone();
        assert(v@ =~= self.inner@);
        v.insert(pos, filter);
        assert(v@.drop_last() =~= self@.push(filter));
        self.inner = v;
        self
    }

    fn push_with_properties(&mut self, id: u64, properties: &[u8]) -> (r: Result<&mut Filters, Error>)
        requires
            id != LZMA_VLI_UNKNOWN,
        ensures
            match props_decoded(id, properties@) {
                Ok(o) => r matches Ok(f) && f@ == old(self)@.push(Filter { id, options: o })
                    && *final(self) == *final(f),
                Err(e) => r == Err::<&mut Filters, Error>(ret_result(e)->Err_0) && final(self)@ == old(self)@,
            },
    {
        let mut filter = Filter { id, options: FilterOptions::Absent };
        let ret = lzma_properties_decode(&mut filter, properties);
        if ret != LZMA_OK {
            return Err(Error::Options);
        }
        Ok(self.push(filter))
    }
}

/// Settings of a multithreaded .xz coder.
pub struct MtStreamBuilder {
    /// Number of worker threads.
    pub threads: u32,
    /// Largest uncompressed size of a Block; 0 lets the encoder choose.
    pub block_size: u64,
    /// Milliseconds after which a coding call may return early; 0 for never.
    pub timeout: u32,
    /// Compression preset, used when `filters` is `None`.
    pub preset: u32,
    /// Custom filter chain.
    pub filters: Option<Filters>,
    /// Integrity check.
    pub check: Check,
    /// Decoder flags.
    pub flags: u32,
    /// Memory usage limit that reduces the number of threads.
    pub memlimit_threading: u64,
    /// Memory usage limit that is never exceeded.
    pub memlimit_stop: u64,
}

impl MtStreamBuilder {
    /// Creates settings with one thread and every other setting zero or
    /// absent.
    pub fn new() -> (r: MtStreamBuilder)
        ensures
            r.threads == 1,
            r.block_size == 0,
            r.timeout == 0,
            r.preset == 0,
            r.filters is None,
            r.check == Check::NoCheck,
            r.flags == 0,
            r.memlimit_threading == 0,
            r.memlimit_stop == 0,
    {
        MtStreamBuilder {
            threads: 1,
            block_size: 0,
            timeout: 0,
            preset: 0,
            filters: None,
            check: Check::NoCheck,
            flags: 0,
            memlimit_threading: 0,
            memlimit_stop: 0,
        }
    }

    /// Configures the number of worker threads.
    pub fn threads(&mut self, value: u32) -> (r: &mut MtStreamBuilder)
        ensures
            *r == (MtStreamBuilder { threads: value, ..*old(self) }),
            *final(self) == *final(r),
    {
        self.threads = value;
        self
    }

    /// Configures the largest uncompressed size of a Block (0: chosen from the filters).
    pub fn block_size(&mut self, value: u64) -> (r: &mut MtStreamBuilder)
        ensures
            *r == (MtStreamBuilder { block_size: value, ..*old(self) }),
            *final(self) == *final(r),
    {
        self.block_size = value;
        self
    }

    /// Configures the time in milliseconds after which a coding call may return early (0: never).
    pub fn timeout_ms(&mut self, value: u32) -> (r: &mut MtStreamBuilder)
        ensures
            *r == (MtStreamBuilder { timeout: value, ..*old(self) }),
            *final(self) == *final(r),
    {
        self.timeout = value;
        self
    }

    /// Configures the compression preset, used when no filter chain is given.
    pub fn preset(&mut self, value: u32) -> (r: &mut MtStreamBuilder)
        ensures
            *r == (MtStreamBuilder { preset: value, ..*old(self) }),
            *final(self) == *final(r),
    {
        self.preset = value;
        self
    }

    /// Configures the integrity check.
    pub fn check(&mut self, value: Check) -> (r: &mut MtStreamBuilder)
        ensures
            *r == (MtStreamBuilder { check: value, ..*old(self) }),
            *final(self) == *final(r),
    {
        self.check = value;
        self
    }

    /// Configures the decoder flags.
    pub fn flags(&mut self, value: u32) -> (r: &mut MtStreamBuilder)
        ensures
            *r == (MtStreamBuilder { flags: value, ..*old(self) }),
            *final(self) == *final(r),
    {
        self.flags = value;
        self
    }

    /// Configures the memory usage limit that reduces the number of threads.
    pub fn memlimit_threading(&mut self, value: u64) -> (r: &mut MtStreamBuilder)
        ensures
            *r == (MtStreamBuilder { memlimit_threading: value, ..*old(self) }),
            *final(self) == *final(r),
    {
        self.memlimit_threading = value;
        self
    }

    /// Configures the memory usage limit that is never exceeded.
    pub fn memlimit_stop(&mut self, value: u64) -> (r: &mut MtStreamBuilder)
        ensures
            *r == (MtStreamBuilder { memlimit_stop: value, ..*old(self) }),
            *final(self) == *final(r),
    {
        self.memlimit_stop = value;
        self
    }

    /// Configures a custom filter chain.
    pub fn filters(&mut self, filters: Filters) -> (r: &mut MtStreamBuilder)
        ensures
            *r == (MtStreamBuilder { filters: Some(filters), ..*old(self) }),
            *final(self) == *final(r),
    {
        self.filters = Some(filters);
        self
    }
}

/// Sequence state: coding normally.
pub const ISEQ_RUN: u32 = 0;
/// Sequence state: a sync flush is in progress.
pub const ISEQ_SYNC_FLUSH: u32 = 1;
/// Sequence state: a full flush is in progress.
pub const ISEQ_FULL_FLUSH: u32 = 2;
/// Sequence state: finishing is in progress.
pub const ISEQ_FINISH: u32 = 3;
/// Sequence state: a full barrier is in progress.
pub const ISEQ_FULL_BARRIER: u32 = 4;
/// Sequence state: the stream has ended.
pub const ISEQ_END: u32 = 5;
/// Sequence state: the coder failed.
pub const ISEQ_ERROR: u32 = 6;

/// What a coding call remembers between calls.
#[allow(non_camel_case_types)]
#[derive(Clone, Copy, Debug)]
pub struct lzma_internal_s {
    /// Sequence state (`ISEQ_*`).
    pub sequence: u32,
    /// Amount of input left after the previous call.
    pub avail_in: usize,
    /// The actions that the coder supports, by action code.
    pub supported_actions: [bool; 5],
    /// The previous call made no progress, so a second one reports
    /// `LZMA_BUF_ERROR`.
    pub allow_buf_error: bool,
}

/// What a call with action code `action` and `avail_in` bytes of input
/// returns before the coder runs: `None` when the coder runs, else the return
/// code.
pub open spec fn code_start_result(s: lzma_internal_s, action: u32, avail_in: usize) -> Option<u32>
    recommends
        action <= LZMA_FULL_BARRIER,
{
    if !s.supported_actions@[action as int] {
        Some(LZMA_PROG_ERROR)
    } else if s.sequence == ISEQ_RUN {
        None
    } else if ISEQ_SYNC_FLUSH <= s.sequence <= ISEQ_FULL_BARRIER {
        if action != s.sequence || s.avail_in != avail_in {
            Some(LZMA_PROG_ERROR)
        } else {
            None
        }
    } else if s.sequence == ISEQ_END {
        Some(LZMA_STREAM_END)
    } else {
        Some(LZMA_PROG_ERROR)
    }
}

/// The return code of a call whose coder consumed `in_pos` bytes, produced
/// `out_pos` bytes and returned `ret`.
pub open spec fn code_finish_ret(s: lzma_internal_s, in_pos: usize, out_pos: usize, ret: u32) -> u32 {
    if ret == LZMA_OK && in_pos == 0 && out_pos == 0 && s.allow_buf_error {
        LZMA_BUF_ERROR
    } else if ret == LZMA_TIMED_OUT {
        LZMA_OK
    } else {
        ret
    }
}

/// The state after such a call, which was given `avail_in` bytes of input.
pub open spec fn code_finish_state(
    s: lzma_internal_s,
    in_pos: usize,
    out_pos: usize,
    avail_in: usize,
    ret: u32,
) -> lzma_internal_s {
    let left = (avail_in - in_pos) as usize;
    if ret == LZMA_OK {
        lzma_internal_s { avail_in: left, allow_buf_error: in_pos == 0 && out_pos == 0, ..s }
    } else if ret == LZMA_TIMED_OUT || ret == LZMA_NO_CHECK || ret == LZMA_UNSUPPORTED_CHECK || ret
        == LZMA_GET_CHECK || ret == LZMA_MEMLIMIT_ERROR {
        lzma_internal_s { avail_in: left, allow_buf_error: false, ..s }
    } else if ret == LZMA_SEEK_NEEDED {
        lzma_internal_s {
            avail_in: left,
            allow_buf_error: false,
            sequence: if s.sequence == ISEQ_FINISH {
                ISEQ_RUN
            } else {
                s.sequence
            },
            ..s
        }
    } else if ret == LZMA_STREAM_END {
        lzma_internal_s {
            avail_in: left,
            allow_buf_error: false,
            sequence: if s.sequence == ISEQ_SYNC_FLUSH || s.sequence == ISEQ_FULL_FLUSH || s.sequence
                == ISEQ_FULL_BARRIER {
                ISEQ_RUN
            } else {
                ISEQ_END
            },
            ..s
        }
    } else {
        lzma_internal_s { avail_in: left, sequence: ISEQ_ERROR, ..s }
    }
}

/// `a + b` modulo 2^64.
pub open spec fn add_wrapping(a: u64, b: u64) -> u64 {
    ((a + b) % 0x1_0000_0000_0000_0000) as u64
}

/// The bookkeeping of a coding stream: the totals of input consumed and
/// output produced, and what the calls remember between them.
pub struct Stream {
    total_in: u64,
    total_out: u64,
    internal: lzma_internal_s,
}

impl Stream {
    /// Total number of input bytes consumed.
    pub closed spec fn spec_total_in(&self) -> u64 {
        self.total_in
    }

    /// Total number of output bytes produced.
    pub closed spec fn spec_total_out(&self) -> u64 {
        self.total_out
    }

    /// What the calls remember between them.
    pub closed spec fn spec_internal(&self) -> lzma_internal_s {
        self.internal
    }

    /// A stream before any call: no totals, in the run state, with no action
    /// supported yet.
    pub fn new() -> (r: Stream)
        ensures
            r.spec_total_in() == 0,
            r.spec_total_out() == 0,
            r.spec_internal().sequence == ISEQ_RUN,
            r.spec_internal().avail_in == 0,
            r.spec_internal().supported_actions@ == seq![false, false, false, false, false],
            !r.spec_internal().allow_buf_error,
    {
        let r = Stream {
            total_in: 0,
            total_out: 0,
            internal: lzma_internal_s {
                sequence: ISEQ_RUN,
                avail_in: 0,
                supported_actions: [false, false, false, false, false],
                allow_buf_error: false,
            },
        };
        assert(r.internal.supported_actions@ =~= seq![false, false, false, false, false]);
        r
    }

    /// Declares that the coder supports `action`.
    pub fn support(&mut self, action: Action)
        ensures
            final(self).spec_total_in() == old(self).spec_total_in(),
            final(self).spec_total_out() == old(self).spec_total_out(),
            final(self).spec_internal() == (lzma_internal_s {
                supported_actions: final(self).spec_internal().supported_actions,
                ..old(self).spec_internal()
            }),
            final(self).spec_internal().supported_actions@ == old(
                self,
            ).spec_internal().supported_actions@.update(action_code(action) as int, true),
    {
        let code = action.to_raw();
        self.internal.supported_actions[code as usize] = true;
    }

    /// Total number of input bytes consumed.
    pub fn total_in(&self) -> (r: u64)
        ensures
            r == self.spec_total_in(),
    {
        self.total_in
    }

    /// Total number of output bytes produced.
    pub fn total_out(&self) -> (r: u64)
        ensures
            r == self.spec_total_out(),
    {
        self.total_out
    }

    /// First half of a coding call with `action` and `avail_in` bytes of
    /// input: `None` when the coder is to run, else the return code of the
    /// call, which then ends without running the coder. Entering a flush or
    /// finish records the action.
    pub fn code_start(&mut self, action: Action, avail_in: usize) -> (r: Option<u32>)
        ensures
            r == code_start_result(old(self).spec_internal(), action_code(action), avail_in),
            final(self).spec_total_in() == old(self).spec_total_in(),
            final(self).spec_total_out() == old(self).spec_total_out(),
            final(self).spec_internal() == (lzma_internal_s {
                sequence: if r is None {
                    action_code(action)
                } else {
                    old(self).spec_internal().sequence
                },
                ..old(self).spec_internal()
            }),
    {
        let code = action.to_raw();
        let s = self.internal.sequence;
        if !self.internal.supported_actions[code as usize] {
            return Some(LZMA_PROG_ERROR);
        }
        if s == ISEQ_RUN {
            self.internal.sequence = code;
            None
        } else if ISEQ_SYNC_FLUSH <= s && s <= ISEQ_FULL_BARRIER {
            if code != s || self.internal.avail_in != avail_in {
                Some(LZMA_PROG_ERROR)
            } else {
                None
            }
        } else if s == ISEQ_END {
            Some(LZMA_STREAM_END)
        } else {
            Some(LZMA_PROG_ERROR)
        }
    }

    /// Second half of a coding call that was given `avail_in` bytes of input,
    /// once the coder consumed `in_pos` of them, produced `out_pos` bytes and
    /// returned `ret`: adds to the totals and gives the return code of the
    /// call. A call that makes no progress right after another one that made
    /// none reports `LZMA_BUF_ERROR`.
    pub fn code_finish(&mut self, in_pos: usize, out_pos: usize, avail_in: usize, ret: u32) -> (r: u32)
        requires
            in_pos <= avail_in,
        ensures
            r == code_finish_ret(old(self).spec_internal(), in_pos, out_pos, ret),
            final(self).spec_internal() == code_finish_state(
                old(self).spec_internal(),
                in_pos,
                out_pos,
                avail_in,
                ret,
            ),
            final(self).spec_total_in() == add_wrapping(old(self).spec_total_in(), in_pos as u64),
            final(self).spec_total_out() == add_wrapping(old(self).spec_total_out(), out_pos as u64),
    {
        self.total_in = self.total_in.wrapping_add(in_pos as u64);
        self.total_out = self.total_out.wrapping_add(out_pos as u64);
        self.internal.avail_in = avail_in - in_pos;
        let mut r = ret;
        if ret == LZMA_OK {
            if out_pos == 0 && in_pos == 0 {
                if self.internal.allow_buf_error {
                    r = LZMA_BUF_ERROR;
                } else {
                    self.internal.allow_buf_error = true;
                }
            } else {
                self.internal.allow_buf_error = false;
            }
        } else if ret == LZMA_TIMED_OUT {
            self.internal.allow_buf_error = false;
            r = LZMA_OK;
        } else if ret == LZMA_SEEK_NEEDED {
            self.internal.allow_buf_error = false;
            if self.internal.sequence == ISEQ_FINISH {
                self.internal.sequence = ISEQ_RUN;
            }
        } else if ret == LZMA_STREAM_END {
            let s = self.internal.sequence;
            if s == ISEQ_SYNC_FLUSH || s == ISEQ_FULL_FLUSH || s == ISEQ_FULL_BARRIER {
                self.internal.sequence = ISEQ_RUN;
            } else {
                self.internal.sequence = ISEQ_END;
            }
            self.internal.allow_buf_error = false;
        } else if ret == LZMA_NO_CHECK || ret == LZMA_UNSUPPORTED_CHECK || ret == LZMA_GET_CHECK
            || ret == LZMA_MEMLIMIT_ERROR {
            self.internal.allow_buf_error = false;
        } else {
            self.internal.sequence = ISEQ_ERROR;
        }
        r
    }
}

/// Once a call has started a flush or a finish (`SyncFlush`, `FullFlush`,
/// `FullBarrier` or `Finish`), that same action must be used, with the same
/// amount of input, until the coder reports the end: a call with another
/// action, or with another amount of input, fails with `LZMA_PROG_ERROR`,
/// and the coder's ordinary results keep the flush or finish going.
pub proof fn law_flush_action_kept(
    s: lzma_internal_s,
    a: Action,
    avail_in: usize,
    b: Action,
    other_in: usize,
    in_pos: usize,
    out_pos: usize,
    ret: u32,
)
    requires
        a != Action::Run,
        s.sequence == ISEQ_RUN,
        s.supported_actions@[action_code(a) as int],
        s.supported_actions@[action_code(b) as int],
        in_pos <= avail_in,
        ret == LZMA_OK || ret == LZMA_TIMED_OUT || ret == LZMA_GET_CHECK || ret == LZMA_NO_CHECK
            || ret == LZMA_UNSUPPORTED_CHECK || ret == LZMA_MEMLIMIT_ERROR,
    ensures
        code_start_result(s, action_code(a), avail_in) is None,
        ({
            let started = lzma_internal_s { sequence: action_code(a), ..s };
            let after = code_finish_state(started, in_pos, out_pos, avail_in, ret);
            &&& after.sequence == action_code(a)
            &&& (b != a || other_in != after.avail_in) ==> code_start_result(
                after,
                action_code(b),
                other_in,
            ) == Some(LZMA_PROG_ERROR)
            &&& code_start_result(after, action_code(a), after.avail_in) is None
        }),
{
}

/// A call that makes no progress returns `LZMA_OK` when the call before it
/// made progress; only a second such call in a row returns `LZMA_BUF_ERROR`
/// (`Status::MemNeeded`).
pub proof fn law_mem_needed_on_second_stall(s: lzma_internal_s, avail_in: usize)
    requires
        !s.allow_buf_error,
    ensures
        code_finish_ret(s, 0, 0, LZMA_OK) == LZMA_OK,
        code_finish_ret(code_finish_state(s, 0, 0, avail_in, LZMA_OK), 0, 0, LZMA_OK)
            == LZMA_BUF_ERROR,
{
}

/// Once a finish has completed, every later call with a supported action
/// reports the end of the stream again.
pub proof fn law_end_is_final(
    s: lzma_internal_s,
    in_pos: usize,
    out_pos: usize,
    avail_in: usize,
    b: Action,
    other_in: usize,
)
    requires
        s.sequence == ISEQ_FINISH,
        in_pos <= avail_in,
        s.supported_actions@[action_code(b) as int],
    ensures
        code_start_result(
            code_finish_state(s, in_pos, out_pos, avail_in, LZMA_STREAM_END),
            action_code(b),
            other_in,
        ) == Some(LZMA_STREAM_END),
{
}

} // verus!
