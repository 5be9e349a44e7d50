//! The decisions of the benchmark probe: its command line, the synthetic
//! payloads it measures on, and the digest it folds outputs into.
use vstd::prelude::*;
use vstd::utf8::{encode_utf8, encode_utf8_decode_utf8};
use crate::string_conversion::{decimal, is_digit};

verus! {

/// What the probe measures.
#[derive(Clone, Copy, Debug, PartialEq, Eq, Structural)]
pub enum Workload {
    /// Compressing.
    Encode,
    /// Decompressing.
    Decode,
    /// Reading the uncompressed size from the Index.
    Size,
    /// CRC32 of the input.
    Crc32,
    /// CRC64 of the input.
    Crc64,
}

/// What the synthetic input looks like.
#[derive(Clone, Copy, Debug, PartialEq, Eq, Structural)]
pub enum InputKind {
    /// Pseudo-random bytes.
    Random,
    /// Repeated English text.
    Text,
}

/// Which allocator the coder is given.
#[derive(Clone, Copy, Debug, PartialEq, Eq, Structural)]
pub enum AllocatorPolicy {
    /// The default one.
    Default,
    /// Rust's global allocator.
    Rust,
    /// The C allocator.
    C,
}

/// The settings of a probe run.
#[derive(Debug)]
pub struct Config {
    /// What is measured.
    pub workload: Workload,
    /// What the synthetic input looks like.
    pub input_kind: InputKind,
    /// File to read the raw input from.
    pub input_path: Option<String>,
    /// File to read compressed input from.
    pub compressed_input_path: Option<String>,
    /// File to save the output of the first run to.
    pub save_output_path: Option<String>,
    /// Size of the synthetic input.
    pub size: usize,
    /// Chunk size of incremental checksums.
    pub chunk_size: Option<usize>,
    /// Uncompressed size of the compressed input.
    pub expected_size: Option<usize>,
    /// Compression preset.
    pub preset: u32,
    /// Timed iterations.
    pub iters: usize,
    /// Untimed iterations before them.
    pub warmup: usize,
    /// Allocator policy.
    pub allocator: AllocatorPolicy,
}

/// A `Config` with its strings taken as character sequences.
pub struct ConfigModel {
    pub workload: Workload,
    pub input_kind: InputKind,
    pub input_path: Option<Seq<char>>,
    pub compressed_input_path: Option<Seq<char>>,
    pub save_output_path: Option<Seq<char>>,
    pub size: usize,
    pub chunk_size: Option<usize>,
    pub expected_size: Option<usize>,
    pub preset: u32,
    pub iters: usize,
    pub warmup: usize,
    pub allocator: AllocatorPolicy,
}

/// The characters of an optional string.
pub open spec fn opt_view(s: Option<String>) -> Option<Seq<char>> {
    match s {
        Some(t) => Some(t@),
        None => None,
    }
}

impl Config {
    /// The abstract value of the settings.
    pub open spec fn model(&self) -> ConfigModel {
        ConfigModel {
            workload: self.workload,
            input_kind: self.input_kind,
            input_path: opt_view(self.input_path),
            compressed_input_path: opt_view(self.compressed_input_path),
            save_output_path: opt_view(self.save_output_path),
            size: self.size,
            chunk_size: self.chunk_size,
            expected_size: self.expected_size,
            preset: self.preset,
            iters: self.iters,
            warmup: self.warmup,
            allocator: self.allocator,
        }
    }
}

/// The settings before any argument is read.
pub open spec fn default_model() -> ConfigModel {
    ConfigModel {
        workload: Workload::Encode,
        input_kind: InputKind::Text,
        input_path: None,
        compressed_input_path: None,
        save_output_path: None,
        size: 1048576usize,
        chunk_size: None,
        expected_size: None,
        preset: 6,
        iters: 200,
        warmup: 20,
        allocator: AllocatorPolicy::Default,
    }
}

/// The usage text of the probe.
pub open spec fn usage_text() -> Seq<char> {
    "Usage:\n"@
        + "  cargo run -p perf-probe --release --no-default-features --features <xz-core|xz-sys|liblzma-sys> -- \\\n"@
        + "    --workload <encode|decode|size|crc32|crc64> [options]\n\n"@ + "Options:\n"@
        + "  --input <path>              Read raw workload bytes from a file\n"@
        + "  --compressed-input <path>   Read compressed bytes for decode\n"@
        + "  --save-output <path>        Save encode/decode output bytes\n"@
        + "  --input-kind <text|random>\n"@
        + "  --size <bytes>              Synthetic input size when --input is omitted\n"@
        + "  --chunk-size <bytes>        Split crc32/crc64 input into incremental chunks\n"@
        + "  --expected-size <bytes>     Required for decode when --compressed-input is used\n"@
        + "  --preset <0-9>              LZMA preset used by encode/decode prep\n"@
        + "  --iters <n>                 Timed iterations\n"@
        + "  --warmup <n>                Untimed warmup iterations\n"@
        + "  --allocator <default|rust|c> xz-core custom_allocator policy probe only\n"@
}

/// Returns the usage text of the probe.
pub fn usage() -> (r: String)
    ensures
        r@ == usage_text(),
{
    let mut message = String::new();
    message.append("Usage:\n");
    message.append("  cargo run -p perf-probe --release --no-default-features --features <xz-core|xz-sys|liblzma-sys> -- \\\n",
    );
    message.append("    --workload <encode|decode|size|crc32|crc64> [options]\n\n");
    message.append("Options:\n");
    message.append("  --input <path>              Read raw workload bytes from a file\n");
    message.append("  --compressed-input <path>   Read compressed bytes for decode\n");
    message.append("  --save-output <path>        Save encode/decode output bytes\n");
    message.append("  --input-kind <text|random>\n");
    message.append("  --size <bytes>              Synthetic input size when --input is omitted\n",
    );
    message.append("  --chunk-size <bytes>        Split crc32/crc64 input into incremental chunks\n",
    );
    message.append("  --expected-size <bytes>     Required for decode when --compressed-input is used\n",
    );
    message.append("  --preset <0-9>              LZMA preset used by encode/decode prep\n");
    message.append("  --iters <n>                 Timed iterations\n");
    message.append("  --warmup <n>                Untimed warmup iterations\n");
    message.append("  --allocator <default|rust|c> xz-core custom_allocator policy probe only\n",
    );
    proof {
        assert(message@ =~= usage_text());
    }
    message
}

/// `a` and `b` hold the same characters.
fn str_eq(a: &str, b: &str) -> (r: bool)
    ensures
        r == (a@ == b@),
{
    let x = a.as_bytes();
    let y = b.as_bytes();
    proof {
        encode_utf8_decode_utf8(a@);
        encode_utf8_decode_utf8(b@);
    }
    if x.len() != y.len() {
        return false;
    }
    let mut i: usize = 0;
    while i < x.len()
        invariant
            x@ == encode_utf8(a@),
            y@ == encode_utf8(b@),
            x@.len() == y@.len(),
            i <= x@.len(),
            forall|j: int| 0 <= j < i ==> x@[j] == y@[j],
        decreases x@.len() - i,
    {
        if x[i] != y[i] {
            assert(x@[i as int] != y@[i as int]);
            return false;
        }
        i = i + 1;
    }
    proof {
        assert(x@ =~= y@);
    }
    true
}

/// The message for a flag given without its value.
pub open spec fn missing_value_message(flag: Seq<char>) -> Seq<char> {
    "missing value for `"@ + flag + "`\n\n"@ + usage_text()
}

/// Returns the argument after the flag `flag` at `i`, or the message for a
/// flag without a value.
pub fn next_arg(args: &[String], i: usize, flag: &str) -> (r: Result<String, String>)
    requires
        i < args@.len(),
    ensures
        i + 1 < args@.len() ==> (r matches Ok(v) && v@ == args@[i + 1]@),
        i + 1 >= args@.len() ==> (r matches Err(m) && m@ == missing_value_message(flag@)),
{
    if args.len() - i > 1 {
        Ok(args[i + 1].clone())
    } else {
        let mut m = String::new();
        m.append("missing value for `");
        m.append(flag);
        m.append("`\n\n");
        let u = usage();
        m.append(u.as_str());
        Err(m)
    }
}

/// The workload named `v`.
pub open spec fn workload_of(v: Seq<char>) -> Option<Workload> {
    if v == "encode"@ {
        Some(Workload::Encode)
    } else if v == "decode"@ {
        Some(Workload::Decode)
    } else if v == "size"@ {
        Some(Workload::Size)
    } else if v == "crc32"@ {
        Some(Workload::Crc32)
    } else if v == "crc64"@ {
        Some(Workload::Crc64)
    } else {
        None
    }
}

/// The input kind named `v`.
pub open spec fn input_kind_of(v: Seq<char>) -> Option<InputKind> {
    if v == "random"@ {
        Some(InputKind::Random)
    } else if v == "text"@ {
        Some(InputKind::Text)
    } else {
        None
    }
}

/// The allocator policy named `v`.
pub open spec fn allocator_of(v: Seq<char>) -> Option<AllocatorPolicy> {
    if v == "default"@ {
        Some(AllocatorPolicy::Default)
    } else if v == "rust"@ {
        Some(AllocatorPolicy::Rust)
    } else if v == "c"@ {
        Some(AllocatorPolicy::C)
    } else {
        None
    }
}

/// `pre`, the value `v` in backquotes.
pub open spec fn quoted(pre: Seq<char>, v: Seq<char>) -> Seq<char> {
    pre + "`"@ + v + "`"@
}

fn quoted_exec(pre: &str, v: &str) -> (r: String)
    ensures
        r@ == quoted(pre@, v@),
{
    let mut m = String::new();
    m.append(pre);
    m.append("`");
    m.append(v);
    m.append("`");
    proof {
        assert(m@ =~= quoted(pre@, v@));
    }
    m
}

/// Parses a workload name.
pub fn parse_workload(value: String) -> (r: Result<Workload, String>)
    ensures
        match workload_of(value@) {
            Some(w) => r == Ok::<Workload, String>(w),
            None => r matches Err(m) && m@ == quoted("unsupported workload "@, value@),
        },
{
    let v = value.as_str();
    if str_eq(v, "encode") {
        Ok(Workload::Encode)
    } else if str_eq(v, "decode") {
        Ok(Workload::Decode)
    } else if str_eq(v, "size") {
        Ok(Workload::Size)
    } else if str_eq(v, "crc32") {
        Ok(Workload::Crc32)
    } else if str_eq(v, "crc64") {
        Ok(Workload::Crc64)
    } else {
        Err(quoted_exec("unsupported workload ", v))
    }
}

/// Parses an input kind.
pub fn parse_input_kind(value: String) -> (r: Result<InputKind, String>)
    ensures
        match input_kind_of(value@) {
            Some(k) => r == Ok::<InputKind, String>(k),
            None => r matches Err(m) && m@ == quoted("unsupported input kind "@, value@),
        },
{
    let v = value.as_str();
    if str_eq(v, "random") {
        Ok(InputKind::Random)
    } else if str_eq(v, "text") {
        Ok(InputKind::Text)
    } else {
        Err(quoted_exec("unsupported input kind ", v))
    }
}

/// Parses an allocator policy.
pub fn parse_allocator(value: String) -> (r: Result<AllocatorPolicy, String>)
    ensures
        match allocator_of(value@) {
            Some(a) => r == Ok::<AllocatorPolicy, String>(a),
            None => r matches Err(m) && m@ == quoted("unsupported allocator "@, value@),
        },
{
    let v = value.as_str();
    if str_eq(v, "default") {
        Ok(AllocatorPolicy::Default)
    } else if str_eq(v, "rust") {
        Ok(AllocatorPolicy::Rust)
    } else if str_eq(v, "c") {
        Ok(AllocatorPolicy::C)
    } else {
        Err(quoted_exec("unsupported allocator ", v))
    }
}

/// The bytes after an optional leading `+`.
pub open spec fn unsigned_body(b: Seq<u8>) -> Seq<u8> {
    if b.len() > 0 && b[0] == '+' as u8 {
        b.drop_first()
    } else {
        b
    }
}

/// Every byte of `d` is an ASCII digit.
pub open spec fn all_digits(d: Seq<u8>) -> bool {
    forall|i: int| 0 <= i < d.len() ==> is_digit(#[trigger] d[i])
}

/// The digits of an unsigned decimal as `str::parse` reads it: an optional
/// `+`, then at least one ASCII digit and nothing else.
pub open spec fn unsigned_digits(b: Seq<u8>) -> Option<Seq<u8>> {
    if unsigned_body(b).len() == 0 || !all_digits(unsigned_body(b)) {
        None
    } else {
        Some(unsigned_body(b))
    }
}

/// The value of the unsigned decimal in the UTF-8 bytes `b`, if it is one
/// and at most `max`.
pub open spec fn unsigned_value(b: Seq<u8>, max: nat) -> Option<nat> {
    match unsigned_digits(b) {
        Some(d) => if decimal(d) <= max {
            Some(decimal(d))
        } else {
            None
        },
        None => None,
    }
}

proof fn lemma_decimal_push(d: Seq<u8>, i: int)
    requires
        0 <= i < d.len(),
    ensures
        decimal(d.take(i + 1)) == decimal(d.take(i)) * 10 + (d[i] - '0' as u8) as nat,
{
    assert(d.take(i + 1).drop_last() =~= d.take(i));
}

proof fn lemma_decimal_grows(d: Seq<u8>, i: int, j: int)
    requires
        0 <= i <= j <= d.len(),
    ensures
        decimal(d.take(j)) >= decimal(d.take(i)),
    decreases j - i,
{
    if i < j {
        lemma_decimal_grows(d, i, j - 1);
        lemma_decimal_push(d, j - 1);
    }
}

/// Reads an unsigned decimal of at most `max` from the UTF-8 bytes `b`.
fn parse_unsigned(b: &[u8], max: u64) -> (r: Option<u64>)
    requires
        max >= 9,
    ensures
        match unsigned_value(b@, max as nat) {
            Some(v) => r == Some(v as u64),
            None => r is None,
        },
{
    let start: usize = if b.len() > 0 && b[0] == '+' as u8 {
        1
    } else {
        0
    };
    let ghost d = unsigned_body(b@);
    proof {
        assert(d =~= b@.skip(start as int));
    }
    if start == b.len() {
        return None;
    }
    let mut v: u64 = 0;
    let mut i = start;
    let mut overflow = false;
    while i < b.len()
        invariant
            start <= i <= b@.len(),
            d == b@.skip(start as int),
            start < b@.len(),
            max >= 9,
            d == unsigned_body(b@),
            forall|j: int| 0 <= j < i - start ==> is_digit(d[j]),
            !overflow ==> v == decimal(d.take(i - start)) && v <= max,
            overflow ==> decimal(d.take(i - start)) > max,
        decreases b@.len() - i,
    {
        let c = b[i];
        if c < '0' as u8 || c > '9' as u8 {
            let ghost w = i - start;
            assert(!is_digit(d[w]));
            return None;
        }
        let k = (c - '0' as u8) as u64;
        proof {
            lemma_decimal_push(d, i - start);
            assert(d[i - start] == c);
        }
        if !overflow {
            if v > (max - k) / 10 {
                overflow = true;
                assert(v * 10 + k > max) by (nonlinear_arith)
                    requires
                        v > (max - k) / 10,
                        k <= 9,
                        max >= 9,
                ;
            } else {
                assert(v * 10 + k <= max) by (nonlinear_arith)
                    requires
                        v <= (max - k) / 10,
                        k <= 9,
                        max >= 9,
                ;
                v = v * 10 + k;
            }
        } else {
            proof {
                lemma_decimal_grows(d, i - start, i - start + 1);
            }
        }
        i = i + 1;
    }
    proof {
        assert(d.take(d.len() as int) =~= d);
    }
    if overflow {
        return None;
    }
    Some(v)
}

/// The message for a value of `flag` that is not a `ty`.
pub open spec fn parse_error_message(flag: Seq<char>, ty: Seq<char>, value: Seq<char>) -> Seq<char> {
    "failed to parse `"@ + flag + "` as "@ + ty + ": `"@ + value + "`"@
}

fn parse_error(flag: &str, ty: &str, value: &str) -> (r: String)
    ensures
        r@ == parse_error_message(flag@, ty@, value@),
{
    let mut m = String::new();
    m.append("failed to parse `");
    m.append(flag);
    m.append("` as ");
    m.append(ty);
    m.append(": `");
    m.append(value);
    m.append("`");
    proof {
        assert(m@ =~= parse_error_message(flag@, ty@, value@));
    }
    m
}

/// Parses the value of `flag` as a `usize`.
pub fn parse_usize(value: String, flag: &str) -> (r: Result<usize, String>)
    ensures
        match unsigned_value(encode_utf8(value@), usize::MAX as nat) {
            Some(v) => r == Ok::<usize, String>(v as usize),
            None => r matches Err(m) && m@ == parse_error_message(flag@, "usize"@, value@),
        },
{
    let b = value.as_str().as_bytes();
    match parse_unsigned(b, usize::MAX as u64) {
        Some(v) => Ok(v as usize),
        None => Err(parse_error(flag, "usize", value.as_str())),
    }
}

/// Parses the value of `flag` as a `u32`.
pub fn parse_u32(value: String, flag: &str) -> (r: Result<u32, String>)
    ensures
        match unsigned_value(encode_utf8(value@), u32::MAX as nat) {
            Some(v) => r == Ok::<u32, String>(v as u32),
            None => r matches Err(m) && m@ == parse_error_message(flag@, "u32"@, value@),
        },
{
    let b = value.as_str().as_bytes();
    match parse_unsigned(b, u32::MAX as u64) {
        Some(v) => Ok(v as u32),
        None => Err(parse_error(flag, "u32", value.as_str())),
    }
}

/// The flags that take a value.
pub open spec fn takes_value(flag: Seq<char>) -> bool {
    ||| flag == "--workload"@
    ||| flag == "--input-kind"@
    ||| flag == "--input"@
    ||| flag == "--compressed-input"@
    ||| flag == "--save-output"@
    ||| flag == "--size"@
    ||| flag == "--chunk-size"@
    ||| flag == "--expected-size"@
    ||| flag == "--preset"@
    ||| flag == "--iters"@
    ||| flag == "--warmup"@
    ||| flag == "--allocator"@
}

/// The settings `c` after the flag `flag` with the value `v`, or the message
/// for a value it does not take.
pub open spec fn set_flag(c: ConfigModel, flag: Seq<char>, v: Seq<char>) -> Result<ConfigModel, Seq<char>> {
    let usize_value = unsigned_value(encode_utf8(v), usize::MAX as nat);
    let usize_error = parse_error_message(flag, "usize"@, v);
    if flag == "--workload"@ {
        match workload_of(v) {
            Some(w) => Ok(ConfigModel { workload: w, ..c }),
            None => Err(quoted("unsupported workload "@, v)),
        }
    } else if flag == "--input-kind"@ {
        match input_kind_of(v) {
            Some(k) => Ok(ConfigModel { input_kind: k, ..c }),
            None => Err(quoted("unsupported input kind "@, v)),
        }
    } else if flag == "--input"@ {
        Ok(ConfigModel { input_path: Some(v), ..c })
    } else if flag == "--compressed-input"@ {
        Ok(ConfigModel { compressed_input_path: Some(v), ..c })
    } else if flag == "--save-output"@ {
        Ok(ConfigModel { save_output_path: Some(v), ..c })
    } else if flag == "--size"@ {
        match usize_value {
            Some(n) => Ok(ConfigModel { size: n as usize, ..c }),
            None => Err(usize_error),
        }
    } else if flag == "--chunk-size"@ {
        match usize_value {
            Some(n) => Ok(ConfigModel { chunk_size: Some(n as usize), ..c }),
            None => Err(usize_error),
        }
    } else if flag == "--expected-size"@ {
        match usize_value {
            Some(n) => Ok(ConfigModel { expected_size: Some(n as usize), ..c }),
            None => Err(usize_error),
        }
    } else if flag == "--preset"@ {
        match unsigned_value(encode_utf8(v), u32::MAX as nat) {
            Some(n) => Ok(ConfigModel { preset: n as u32, ..c }),
            None => Err(parse_error_message(flag, "u32"@, v)),
        }
    } else if flag == "--iters"@ {
        match usize_value {
            Some(n) => Ok(ConfigModel { iters: n as usize, ..c }),
            None => Err(usize_error),
        }
    } else if flag == "--warmup"@ {
        match usize_value {
            Some(n) => Ok(ConfigModel { warmup: n as usize, ..c }),
            None => Err(usize_error),
        }
    } else {
        match allocator_of(v) {
            Some(a) => Ok(ConfigModel { allocator: a, ..c }),
            None => Err(quoted("unsupported allocator "@, v)),
        }
    }
}

/// The checks on the settings once every argument is read.
pub open spec fn final_checks(c: ConfigModel) -> Result<ConfigModel, Seq<char>> {
    if c.iters == 0 {
        Err("`--iters` must be greater than zero"@)
    } else if c.chunk_size == Some(0usize) {
        Err("`--chunk-size` must be greater than zero"@)
    } else if (c.workload == Workload::Decode || c.workload == Workload::Size)
        && c.compressed_input_path is Some && c.expected_size is None {
        Err("`decode`/`size` with `--compressed-input` also requires `--expected-size`"@)
    } else if c.chunk_size is Some && !(c.workload == Workload::Crc32 || c.workload
        == Workload::Crc64) {
        Err("`--chunk-size` is only supported with crc32/crc64 workloads"@)
    } else if c.allocator != AllocatorPolicy::Default {
        Err("`--allocator` requires `--features xz-core-custom-allocator`"@)
    } else {
        Ok(c)
    }
}

/// The message for an argument that is not a flag of the probe.
pub open spec fn unknown_message(arg: Seq<char>) -> Seq<char> {
    "unknown argument `"@ + arg + "`\n\n"@ + usage_text()
}

/// Reads the arguments from `i` on into the settings `c`: the settings, or
/// the message that the probe exits with.
pub open spec fn parse_from(args: Seq<Seq<char>>, i: nat, c: ConfigModel) -> Result<ConfigModel, Seq<char>>
    decreases args.len() - i,
{
    if i >= args.len() {
        final_checks(c)
    } else if takes_value(args[i as int]) {
        if i + 1 >= args.len() {
            Err(missing_value_message(args[i as int]))
        } else {
            match set_flag(c, args[i as int], args[(i + 1) as int]) {
                Err(m) => Err(m),
                Ok(c2) => parse_from(args, i + 2, c2),
            }
        }
    } else if args[i as int] == "--help"@ || args[i as int] == "-h"@ {
        Err(usage_text())
    } else {
        Err(unknown_message(args[i as int]))
    }
}

/// The characters of each argument.
pub open spec fn args_view(args: Seq<String>) -> Seq<Seq<char>> {
    args.map_values(|a: String| a@)
}

fn is_valued_flag(flag: &str) -> (r: bool)
    ensures
        r == takes_value(flag@),
{
    str_eq(flag, "--workload") || str_eq(flag, "--input-kind") || str_eq(flag, "--input")
        || str_eq(flag, "--compressed-input") || str_eq(flag, "--save-output") || str_eq(
        flag,
        "--size",
    ) || str_eq(flag, "--chunk-size") || str_eq(flag, "--expected-size") || str_eq(
        flag,
        "--preset",
    ) || str_eq(flag, "--iters") || str_eq(flag, "--warmup") || str_eq(flag, "--allocator")
}

fn apply_flag(config: &mut Config, flag: &str, v: String) -> (r: Result<(), String>)
    requires
        takes_value(flag@),
    ensures
        match set_flag(old(config).model(), flag@, v@) {
            Ok(c2) => r is Ok && final(config).model() == c2,
            Err(m) => r matches Err(e) && e@ == m,
        },
{
    if str_eq(flag, "--workload") {
        match parse_workload(v) {
            Ok(w) => {
                config.workload = w;
                Ok(())
            },
            Err(m) => Err(m),
        }
    } else if str_eq(flag, "--input-kind") {
        match parse_input_kind(v) {
            Ok(k) => {
                config.input_kind = k;
                Ok(())
            },
            Err(m) => Err(m),
        }
    } else if str_eq(flag, "--input") {
        config.input_path = Some(v);
        Ok(())
    } else if str_eq(flag, "--compressed-input") {
        config.compressed_input_path = Some(v);
        Ok(())
    } else if str_eq(flag, "--save-output") {
        config.save_output_path = Some(v);
        Ok(())
    } else if str_eq(flag, "--size") {
        match parse_usize(v, flag) {
            Ok(n) => {
                config.size = n;
                Ok(())
            },
            Err(m) => Err(m),
        }
    } else if str_eq(flag, "--chunk-size") {
        match parse_usize(v, flag) {
            Ok(n) => {
                config.chunk_size = Some(n);
                Ok(())
            },
            Err(m) => Err(m),
        }
    } else if str_eq(flag, "--expected-size") {
        match parse_usize(v, flag) {
            Ok(n) => {
                config.expected_size = Some(n);
                Ok(())
            },
            Err(m) => Err(m),
        }
    } else if str_eq(flag, "--preset") {
        match parse_u32(v, flag) {
            Ok(n) => {
                config.preset = n;
                Ok(())
            },
            Err(m) => Err(m),
        }
    } else if str_eq(flag, "--iters") {
        match parse_usize(v, flag) {
            Ok(n) => {
                config.iters = n;
                Ok(())
            },
            Err(m) => Err(m),
        }
    } else if str_eq(flag, "--warmup") {
        match parse_usize(v, flag) {
            Ok(n) => {
                config.warmup = n;
                Ok(())
            },
            Err(m) => Err(m),
        }
    } else {
        match parse_allocator(v) {
            Ok(a) => {
                config.allocator = a;
                Ok(())
            },
            Err(m) => Err(m),
        }
    }
}

fn message(text: &str) -> (r: String)
    ensures
        r@ == text@,
{
    text.to_owned()
}

impl Config {
    /// Reads the command-line arguments `args` (the program name left out)
    /// into settings, or returns the message to exit with.
    pub fn parse(args: &[String]) -> (r: Result<Config, String>)
        ensures
            match parse_from(args_view(args@), 0, default_model()) {
                Ok(m) => r matches Ok(c) && c.model() == m,
                Err(msg) => r matches Err(e) && e@ == msg,
            },
    {
        let ghost av = args_view(args@);
        let mut config = Config {
            workload: Workload::Encode,
            input_kind: InputKind::Text,
            input_path: None,
            compressed_input_path: None,
            save_output_path: None,
            size: 1024 * 1024,
            chunk_size: None,
            expected_size: None,
            preset: 6,
            iters: 200,
            warmup: 20,
            allocator: AllocatorPolicy::Default,
        };
        let mut i: usize = 0;
        while i < args.len()
            invariant
                i <= args@.len(),
                av == args_view(args@),
                parse_from(av, 0, default_model()) == parse_from(av, i as nat, config.model()),
            decreases args@.len() - i,
        {
            let arg = args[i].as_str();
            assert(av[i as int] == arg@);
            if is_valued_flag(arg) {
                let v = match next_arg(args, i, arg) {
                    Ok(v) => v,
                    Err(m) => {
                        return Err(m);
                    },
                };
                assert(av[i + 1] == v@);
                match apply_flag(&mut config, arg, v) {
                    Ok(()) => {},
                    Err(m) => {
                        return Err(m);
                    },
                }
                i = i + 2;
            } else if str_eq(arg, "--help") || str_eq(arg, "-h") {
                return Err(usage());
            } else {
                let mut m = String::new();
                m.append("unknown argument `");
                m.append(arg);
                m.append("`\n\n");
                let u = usage();
                m.append(u.as_str());
                proof {
                    assert(m@ =~= unknown_message(arg@));
                }
                return Err(m);
            }
        }
        if config.iters == 0 {
            return Err(message("`--iters` must be greater than zero"));
        }
        if let Some(0) = config.chunk_size {
            return Err(message("`--chunk-size` must be greater than zero"));
        }
        let decode_or_size = match config.workload {
            Workload::Decode | Workload::Size => true,
            _ => false,
        };
        if decode_or_size && config.compressed_input_path.is_some() && config.expected_size.is_none() {
            return Err(
                message("`decode`/`size` with `--compressed-input` also requires `--expected-size`"),
            );
        }
        let crc = match config.workload {
            Workload::Crc32 | Workload::Crc64 => true,
            _ => false,
        };
        if config.chunk_size.is_some() && !crc {
            return Err(message("`--chunk-size` is only supported with crc32/crc64 workloads"));
        }
        if config.allocator != AllocatorPolicy::Default {
            return Err(message("`--allocator` requires `--features xz-core-custom-allocator`"));
        }
        Ok(config)
    }
}

/// One step of the xorshift generator of the random payload.
pub open spec fn xorshift(x: u64) -> u64 {
    let a = x ^ (x >> 12u64);
    let b = a ^ (a << 25u64);
    b ^ (b >> 27u64)
}

/// The generator state after `n` steps.
pub open spec fn random_state(n: nat) -> u64
    decreases n,
{
    if n == 0 {
        0x9E37_79B9_7F4A_7C15
    } else {
        xorshift(random_state((n - 1) as nat))
    }
}

/// Byte `i` of the random payload: the top byte of the scrambled state
/// after `i + 1` steps.
pub open spec fn random_byte(i: nat) -> u8 {
    (vstd::wrapping::u64_specs::wrapping_mul(random_state(i + 1), 0x2545_F491_4F6C_DD1D) >> 56u64) as u8
}

/// A reproducible pseudo-random payload of `size` bytes.
pub fn make_random_payload(size: usize) -> (out: Vec<u8>)
    ensures
        out@ == Seq::new(size as nat, |i: int| random_byte(i as nat)),
{
    let mut x: u64 = 0x9E37_79B9_7F4A_7C15;
    let mut out: Vec<u8> = Vec::with_capacity(size);
    let mut n: usize = 0;
    while n < size
        invariant
            n <= size,
            x == random_state(n as nat),
            out@ == Seq::new(n as nat, |i: int| random_byte(i as nat)),
        decreases size - n,
    {
        x ^= x >> 12;
        x ^= x << 25;
        x ^= x >> 27;
        out.push((x.wrapping_mul(0x2545_F491_4F6C_DD1D) >> 56) as u8);
        n = n + 1;
        proof {
            assert(out@ =~= Seq::new(n as nat, |i: int| random_byte(i as nat)));
        }
    }
    out
}

/// The sentence the text payload repeats.
pub const TEXT_CHUNK: &'static str = "Portable Network Archive keeps long-tail formats maintainable by replacing risky C dependency paths with inspectable Rust implementations. ";

/// The bytes of the sentence the text payload repeats.
pub open spec fn text_chunk() -> Seq<u8> {
    encode_utf8(TEXT_CHUNK@)
}

/// A text payload of `size` bytes: the sentence, repeated and cut.
pub fn make_text_payload(size: usize) -> (out: Vec<u8>)
    ensures
        text_chunk().len() > 0,
        out@ == Seq::new(size as nat, |i: int| text_chunk()[i % text_chunk().len() as int]),
{
    let chunk = TEXT_CHUNK.as_bytes();
    proof {
        reveal_strlit("Portable Network Archive keeps long-tail formats maintainable by replacing risky C dependency paths with inspectable Rust implementations. ");
        assert(TEXT_CHUNK@.len() > 0);
        assert(chunk@.len() > 0);
    }
    let n = chunk.len();
    let mut out: Vec<u8> = Vec::with_capacity(size);
    while out.len() < size
        invariant
            n == chunk@.len(),
            n > 0,
            chunk@ == text_chunk(),
            out@.len() <= size,
            (out@.len() as int) % (n as int) == 0 || out@.len() == size,
            out@ == Seq::new(out@.len(), |i: int| chunk@[i % n as int]),
        decreases size - out@.len(),
    {
        let base = out.len();
        let remaining = size - base;
        let take = if remaining < n {
            remaining
        } else {
            n
        };
        let mut j: usize = 0;
        while j < take
            invariant
                n == chunk@.len(),
                n > 0,
                take <= n,
                base + take <= size,
                (base as int) % (n as int) == 0,
                j <= take,
                out@.len() == base + j,
                out@ == Seq::new(out@.len(), |i: int| chunk@[i % n as int]),
            decreases take - j,
        {
            out.push(chunk[j]);
            proof {
                assert(((base + j) as int) % (n as int) == j) by (nonlinear_arith)
                    requires
                        (base as int) % (n as int) == 0,
                        0 <= j < n,
                ;
                assert(out@ =~= Seq::new(out@.len(), |i: int| chunk@[i % n as int]));
            }
            j = j + 1;
        }
        proof {
            if take == n {
                assert(((base + n) as int) % (n as int) == 0) by (nonlinear_arith)
                    requires
                        (base as int) % (n as int) == 0,
                        n > 0,
                ;
            }
        }
    }
    proof {
        assert(out@ =~= Seq::new(size as nat, |i: int| text_chunk()[i % text_chunk().len() as int]));
    }
    out
}

/// `x` rotated left by five bits.
pub open spec fn rotl5(x: u64) -> u64 {
    (x << 5u64) | (x >> 59u64)
}

/// The digest of the first `n` bytes of `data` over the length `len`.
pub open spec fn fold_spec(len: u64, data: Seq<u8>, n: nat) -> u64
    decreases n,
{
    if n == 0 {
        len
    } else {
        rotl5(fold_spec(len, data, (n - 1) as nat)) ^ (data[n - 1] as u64)
    }
}

/// Folds `len` and the first 32 bytes of `data` into a digest that keeps
/// the work from being optimised away.
pub fn fold_bytes(len: usize, data: &[u8]) -> (r: u64)
    ensures
        r == fold_spec(len as u64, data@, if data@.len() < 32 {
            data@.len()
        } else {
            32
        }),
{
    let mut acc: u64 = len as u64;
    let end = if data.len() < 32 {
        data.len()
    } else {
        32
    };
    let mut i: usize = 0;
    while i < end
        invariant
            end <= data@.len(),
            end == (if data@.len() < 32 { data@.len() } else { 32 }),
            i <= end,
            acc == fold_spec(len as u64, data@, i as nat),
        decreases end - i,
    {
        acc = ((acc << 5) | (acc >> 59)) ^ (data[i] as u64);
        i = i + 1;
    }
    acc
}

} // verus!
