//! Parsing filter chains from strings such as `"x86 lzma2:preset=6e,dict=8MiB"`
//! or a bare preset such as `"6e"`.
//!
//! The string is read as a C string: it ends at its first zero byte, or at
//! the end of the slice.
use vstd::prelude::*;
use crate::filter::{
    chain_valid, lzma_validate_chain, Filter, FilterOptions, LzmaRaw, LZMA_DELTA_DIST_MAX,
    LZMA_DELTA_DIST_MIN, LZMA_DICT_SIZE_MIN, LZMA_FILTER_RESERVED_START, LZMA_LCLP_MAX,
    LZMA_MF_BT2, LZMA_MF_BT3, LZMA_MF_BT4, LZMA_MF_HC3, LZMA_MF_HC4, LZMA_MODE_FAST,
    LZMA_MODE_NORMAL, LZMA_PB_MAX,
};
use crate::preset::{lzma_lzma_preset, preset_options};
use crate::types::{
    LZMA_FILTER_ARM, LZMA_FILTER_ARM64, LZMA_FILTER_ARMTHUMB, LZMA_FILTER_DELTA,
    LZMA_FILTER_IA64, LZMA_FILTER_LZMA1, LZMA_FILTER_LZMA2, LZMA_FILTER_POWERPC,
    LZMA_FILTER_RISCV, LZMA_FILTER_SPARC, LZMA_FILTER_X86, LZMA_PRESET_EXTREME, LZMA_VLI_UNKNOWN,
};

verus! {

/// Flag: allow filters that cannot be used in the .xz format.
pub const LZMA_STR_ALL_FILTERS: u32 = 0x1;
/// Flag: do not validate the parsed chain.
pub const LZMA_STR_NO_VALIDATION: u32 = 0x2;
/// Longest name of a filter, an option or a named option value.
pub const NAME_LEN_MAX: usize = 11;
/// Preset level used for LZMA1 and LZMA2 before their options are read.
pub const LZMA_PRESET_DEFAULT: u32 = 6;

/// Why a string was refused.
#[derive(Clone, Copy, Debug, PartialEq, Eq, Structural)]
pub enum StrError {
    /// Flags other than `LZMA_STR_ALL_FILTERS` and `LZMA_STR_NO_VALIDATION`.
    UnsupportedFlags,
    /// Nothing but spaces.
    Empty,
    /// A preset that is not a level 0-9.
    UnsupportedPreset,
    /// A preset flag other than `e`.
    UnsupportedPresetFlag,
    /// Options not in `name=value` form.
    NotNameValue,
    /// An option name the filter does not have.
    UnknownOptionName,
    /// An option with nothing after `=`.
    EmptyValue,
    /// A named option value that does not exist.
    InvalidOptionValue,
    /// A numeric option value that does not start with a digit.
    NotDecimal,
    /// A numeric option value out of its range.
    OutOfRange,
    /// A multiplier suffix on an option that takes none.
    SuffixNotSupported,
    /// A multiplier suffix other than KiB, MiB or GiB.
    InvalidSuffix,
    /// `lc` and `lp` add up to more than 4.
    LcLpTooBig,
    /// A filter name that does not exist.
    UnknownFilterName,
    /// A filter that the .xz format does not allow.
    NotForXz,
    /// More than four filters.
    TooManyFilters,
    /// `--` or spaces with no filter name.
    FilterNameMissing,
    /// A chain that cannot be used.
    InvalidChain,
}

/// The message that describes the error `e`.
pub open spec fn str_error_text(e: StrError) -> Seq<char> {
    match e {
        StrError::UnsupportedFlags => "Unsupported flags to lzma_str_to_filters()"@,
        StrError::Empty => "Empty string is not allowed, try '6' if a default value is needed"@,
        StrError::UnsupportedPreset => "Unsupported preset"@,
        StrError::UnsupportedPresetFlag => "Unsupported flag in the preset"@,
        StrError::NotNameValue => "Options must be 'name=value' pairs separated with commas"@,
        StrError::UnknownOptionName => "Unknown option name"@,
        StrError::EmptyValue => "Option value cannot be empty"@,
        StrError::InvalidOptionValue => "Invalid option value"@,
        StrError::NotDecimal => "Value is not a non-negative decimal integer"@,
        StrError::OutOfRange => "Value out of range"@,
        StrError::SuffixNotSupported => "This option does not support any multiplier suffixes"@,
        StrError::InvalidSuffix => "Invalid multiplier suffix (KiB, MiB, or GiB)"@,
        StrError::LcLpTooBig => "The sum of lc and lp must not exceed 4"@,
        StrError::UnknownFilterName => "Unknown filter name"@,
        StrError::NotForXz => "This filter cannot be used in the .xz format"@,
        StrError::TooManyFilters => "The maximum number of filters is four"@,
        StrError::FilterNameMissing => "Filter name is missing"@,
        StrError::InvalidChain => "Invalid filter chain ('lzma2' missing at the end?)"@,
    }
}

impl StrError {
    /// The message that describes the error.
    pub fn message(&self) -> (r: &'static str)
        ensures
            r@ == str_error_text(*self),
    {
        match self {
            StrError::UnsupportedFlags => "Unsupported flags to lzma_str_to_filters()",
            StrError::Empty => "Empty string is not allowed, try '6' if a default value is needed",
            StrError::UnsupportedPreset => "Unsupported preset",
            StrError::UnsupportedPresetFlag => "Unsupported flag in the preset",
            StrError::NotNameValue => "Options must be 'name=value' pairs separated with commas",
            StrError::UnknownOptionName => "Unknown option name",
            StrError::EmptyValue => "Option value cannot be empty",
            StrError::InvalidOptionValue => "Invalid option value",
            StrError::NotDecimal => "Value is not a non-negative decimal integer",
            StrError::OutOfRange => "Value out of range",
            StrError::SuffixNotSupported => "This option does not support any multiplier suffixes",
            StrError::InvalidSuffix => "Invalid multiplier suffix (KiB, MiB, or GiB)",
            StrError::LcLpTooBig => "The sum of lc and lp must not exceed 4",
            StrError::UnknownFilterName => "Unknown filter name",
            StrError::NotForXz => "This filter cannot be used in the .xz format",
            StrError::TooManyFilters => "The maximum number of filters is four",
            StrError::FilterNameMissing => "Filter name is missing",
            StrError::InvalidChain => "Invalid filter chain ('lzma2' missing at the end?)",
        }
    }
}

/// The byte at `i`, or 0 past the end.
pub open spec fn at(s: Seq<u8>, i: int) -> u8 {
    if 0 <= i < s.len() {
        s[i]
    } else {
        0
    }
}

fn byte_at(s: &[u8], i: usize) -> (r: u8)
    ensures
        r == at(s@, i as int),
{
    if i < s.len() {
        s[i]
    } else {
        0
    }
}

/// An ASCII decimal digit.
pub open spec fn is_digit(b: u8) -> bool {
    '0' as u8 <= b <= '9' as u8
}

/// The first position in `[p, e)` that holds `b`, or `e`.
pub open spec fn find_byte(s: Seq<u8>, p: nat, e: nat, b: u8) -> nat
    decreases e - p,
{
    if p >= e {
        e
    } else if at(s, p as int) == b {
        p
    } else {
        find_byte(s, p + 1, e, b)
    }
}

fn find_byte_exec(s: &[u8], p: usize, e: usize, b: u8) -> (r: usize)
    requires
        p <= e,
    ensures
        r == find_byte(s@, p as nat, e as nat, b),
        p <= r <= e,
{
    let mut q = p;
    while q < e
        invariant
            p <= q <= e,
            find_byte(s@, p as nat, e as nat, b) == find_byte(s@, q as nat, e as nat, b),
        decreases e - q,
    {
        if byte_at(s, q) == b {
            return q;
        }
        q = q + 1;
    }
    q
}

/// The end of the run of digits that starts at `p`, within `[p, e)`.
pub open spec fn digits_end(s: Seq<u8>, p: nat, e: nat) -> nat
    decreases e - p,
{
    if p < e && is_digit(at(s, p as int)) {
        digits_end(s, p + 1, e)
    } else {
        p
    }
}

/// Value of the decimal digits `d`.
pub open spec fn decimal(d: Seq<u8>) -> nat
    decreases d.len(),
{
    if d.len() == 0 {
        0
    } else {
        decimal(d.drop_last()) * 10 + (d.last() - '0' as u8) as nat
    }
}

/// The position after the run of spaces that starts at `p`.
pub open spec fn skip_spaces(s: Seq<u8>, p: nat) -> nat
    decreases s.len() - p,
{
    if p < s.len() && s[p as int] == ' ' as u8 {
        skip_spaces(s, p + 1)
    } else {
        p
    }
}

fn skip_spaces_exec(s: &[u8], p: usize) -> (r: usize)
    ensures
        r == skip_spaces(s@, p as nat),
{
    let mut q = p;
    while q < s.len() && s[q] == ' ' as u8
        invariant
            skip_spaces(s@, p as nat) == skip_spaces(s@, q as nat),
        decreases s.len() - q,
    {
        q = q + 1;
    }
    q
}

/// Where the C string from `p` ends: its first zero byte, or the end.
pub open spec fn string_end(s: Seq<u8>, p: nat) -> nat
    decreases s.len() - p,
{
    if p < s.len() && s[p as int] != 0 {
        string_end(s, p + 1)
    } else {
        p
    }
}

fn string_end_exec(s: &[u8], p: usize) -> (r: usize)
    ensures
        r == string_end(s@, p as nat),
{
    let mut q = p;
    while q < s.len() && s[q] != 0
        invariant
            string_end(s@, p as nat) == string_end(s@, q as nat),
        decreases s.len() - q,
    {
        q = q + 1;
    }
    q
}

/// The bytes `s[p..e]` are `name`.
fn bytes_are(s: &[u8], p: usize, e: usize, name: &[u8]) -> (r: bool)
    requires
        p <= e <= s@.len(),
    ensures
        r == (s@.subrange(p as int, e as int) == name@),
{
    if e - p != name.len() {
        return false;
    }
    let mut k: usize = 0;
    while k < name.len()
        invariant
            p <= e <= s@.len(),
            e - p == name@.len(),
            k <= name@.len(),
            forall|j: int| 0 <= j < k ==> s@[p + j] == name@[j],
        decreases name@.len() - k,
    {
        if s[p + k] != name[k] {
            proof {
                assert(s@.subrange(p as int, e as int)[k as int] != name@[k as int]);
            }
            return false;
        }
        k = k + 1;
    }
    proof {
        assert(s@.subrange(p as int, e as int) =~= name@);
    }
    true
}

/// Which options a filter takes.
#[derive(Clone, Copy, Debug, PartialEq, Eq, Structural)]
pub enum OptionSet {
    /// `preset`, `dict`, `lc`, `lp`, `pb`, `mode`, `nice`, `mf`, `depth`.
    Lzma12,
    /// `start`.
    Bcj,
    /// `dist`.
    Delta,
}

/// Name of option `k` of `set`.
pub open spec fn opt_name(set: OptionSet, k: nat) -> Seq<u8> {
    match set {
        OptionSet::Lzma12 => if k == 0 {
            seq!['p' as u8, 'r' as u8, 'e' as u8, 's' as u8, 'e' as u8, 't' as u8]
        } else if k == 1 {
            seq!['d' as u8, 'i' as u8, 'c' as u8, 't' as u8]
        } else if k == 2 {
            seq!['l' as u8, 'c' as u8]
        } else if k == 3 {
            seq!['l' as u8, 'p' as u8]
        } else if k == 4 {
            seq!['p' as u8, 'b' as u8]
        } else if k == 5 {
            seq!['m' as u8, 'o' as u8, 'd' as u8, 'e' as u8]
        } else if k == 6 {
            seq!['n' as u8, 'i' as u8, 'c' as u8, 'e' as u8]
        } else if k == 7 {
            seq!['m' as u8, 'f' as u8]
        } else {
            seq!['d' as u8, 'e' as u8, 'p' as u8, 't' as u8, 'h' as u8]
        },
        OptionSet::Bcj => seq!['s' as u8, 't' as u8, 'a' as u8, 'r' as u8, 't' as u8],
        OptionSet::Delta => seq!['d' as u8, 'i' as u8, 's' as u8, 't' as u8],
    }
}

/// Number of options of `set`.
pub open spec fn opt_count(set: OptionSet) -> nat {
    match set {
        OptionSet::Lzma12 => 9,
        _ => 1,
    }
}

/// The option of `set` named `name`.
pub open spec fn find_opt(set: OptionSet, name: Seq<u8>) -> Option<nat> {
    if name == opt_name(set, 0) {
        Some(0)
    } else if opt_count(set) == 1 {
        None
    } else if name == opt_name(set, 1) {
        Some(1)
    } else if name == opt_name(set, 2) {
        Some(2)
    } else if name == opt_name(set, 3) {
        Some(3)
    } else if name == opt_name(set, 4) {
        Some(4)
    } else if name == opt_name(set, 5) {
        Some(5)
    } else if name == opt_name(set, 6) {
        Some(6)
    } else if name == opt_name(set, 7) {
        Some(7)
    } else if name == opt_name(set, 8) {
        Some(8)
    } else {
        None
    }
}

/// Option `k` of `set` takes a preset.
pub open spec fn opt_is_preset(set: OptionSet, k: nat) -> bool {
    set == OptionSet::Lzma12 && k == 0
}

/// Option `k` of `set` takes a named value.
pub open spec fn opt_uses_map(set: OptionSet, k: nat) -> bool {
    set == OptionSet::Lzma12 && (k == 5 || k == 7)
}

/// Option `k` of `set` takes a KiB, MiB or GiB suffix.
pub open spec fn opt_byte_suffix(set: OptionSet, k: nat) -> bool {
    (set == OptionSet::Lzma12 && k == 1) || set == OptionSet::Bcj
}

/// Smallest value of numeric option `k` of `set`.
pub open spec fn opt_min(set: OptionSet, k: nat) -> nat {
    match set {
        OptionSet::Lzma12 => if k == 1 {
            LZMA_DICT_SIZE_MIN as nat
        } else if k == 6 {
            2
        } else {
            0
        },
        OptionSet::Bcj => 0,
        OptionSet::Delta => LZMA_DELTA_DIST_MIN as nat,
    }
}

/// Largest value of numeric option `k` of `set`.
pub open spec fn opt_max(set: OptionSet, k: nat) -> nat {
    match set {
        OptionSet::Lzma12 => if k == 1 {
            0x6000_0000
        } else if k == 2 || k == 3 {
            LZMA_LCLP_MAX as nat
        } else if k == 4 {
            LZMA_PB_MAX as nat
        } else if k == 6 {
            273
        } else {
            u32::MAX as nat
        },
        OptionSet::Bcj => u32::MAX as nat,
        OptionSet::Delta => LZMA_DELTA_DIST_MAX as nat,
    }
}

/// The value named `name` of named option `k` of `set`: `fast` and `normal`
/// for `mode`, `hc3`, `hc4`, `bt2`, `bt3` and `bt4` for `mf`.
pub open spec fn map_value(set: OptionSet, k: nat, name: Seq<u8>) -> Option<u32> {
    if set == OptionSet::Lzma12 && k == 5 {
        if name == seq!['f' as u8, 'a' as u8, 's' as u8, 't' as u8] {
            Some(1u32)
        } else if name == seq!['n' as u8, 'o' as u8, 'r' as u8, 'm' as u8, 'a' as u8, 'l' as u8] {
            Some(2u32)
        } else {
            None
        }
    } else if set == OptionSet::Lzma12 && k == 7 {
        if name == seq!['h' as u8, 'c' as u8, '3' as u8] {
            Some(0x03u32)
        } else if name == seq!['h' as u8, 'c' as u8, '4' as u8] {
            Some(0x04u32)
        } else if name == seq!['b' as u8, 't' as u8, '2' as u8] {
            Some(0x12u32)
        } else if name == seq!['b' as u8, 't' as u8, '3' as u8] {
            Some(0x13u32)
        } else if name == seq!['b' as u8, 't' as u8, '4' as u8] {
            Some(0x14u32)
        } else {
            None
        }
    } else {
        None
    }
}

/// The names an options string may give to `mf` and `mode` stand for the
/// liblzma constants of those names: `mf=` sets the match finder of LZMA1
/// or LZMA2 options; `hc3`, `hc4`, `bt2`, `bt3` and `bt4` are the match
/// finders `LZMA_MF_HC3`, `LZMA_MF_HC4`, `LZMA_MF_BT2`, `LZMA_MF_BT3` and
/// `LZMA_MF_BT4`; `fast` and `normal` are `LZMA_MODE_FAST` and
/// `LZMA_MODE_NORMAL`. Any other name is refused, and no two names stand
/// for the same value.
pub proof fn law_named_values(r: LzmaRaw, v: u32, name: Seq<u8>, other: Seq<u8>)
    ensures
        opt_name(OptionSet::Lzma12, 7) == seq!['m' as u8, 'f' as u8],
        set_field(FilterOptions::Lzma(r), OptionSet::Lzma12, 7, v) == FilterOptions::Lzma(
            LzmaRaw { mf: v, ..r },
        ),
        map_value(OptionSet::Lzma12, 7, seq!['h' as u8, 'c' as u8, '3' as u8]) == Some(LZMA_MF_HC3),
        map_value(OptionSet::Lzma12, 7, seq!['h' as u8, 'c' as u8, '4' as u8]) == Some(LZMA_MF_HC4),
        map_value(OptionSet::Lzma12, 7, seq!['b' as u8, 't' as u8, '2' as u8]) == Some(LZMA_MF_BT2),
        map_value(OptionSet::Lzma12, 7, seq!['b' as u8, 't' as u8, '3' as u8]) == Some(LZMA_MF_BT3),
        map_value(OptionSet::Lzma12, 7, seq!['b' as u8, 't' as u8, '4' as u8]) == Some(LZMA_MF_BT4),
        map_value(OptionSet::Lzma12, 7, name) is Some ==> name.len() == 3,
        map_value(OptionSet::Lzma12, 5, seq!['f' as u8, 'a' as u8, 's' as u8, 't' as u8]) == Some(
            LZMA_MODE_FAST,
        ),
        map_value(
            OptionSet::Lzma12,
            5,
            seq!['n' as u8, 'o' as u8, 'r' as u8, 'm' as u8, 'a' as u8, 'l' as u8],
        ) == Some(LZMA_MODE_NORMAL),
        forall|k: nat|
            map_value(OptionSet::Lzma12, k, name) is Some && map_value(OptionSet::Lzma12, k, name)
                == map_value(OptionSet::Lzma12, k, other) ==> name == other,
{
}

/// `o` with option `k` of `set` set to `v`.
pub open spec fn set_field(o: FilterOptions, set: OptionSet, k: nat, v: u32) -> FilterOptions {
    match set {
        OptionSet::Lzma12 => match o {
            FilterOptions::Lzma(r) => FilterOptions::Lzma(
                if k == 1 {
                    LzmaRaw { dict_size: v, ..r }
                } else if k == 2 {
                    LzmaRaw { lc: v, ..r }
                } else if k == 3 {
                    LzmaRaw { lp: v, ..r }
                } else if k == 4 {
                    LzmaRaw { pb: v, ..r }
                } else if k == 5 {
                    LzmaRaw { mode: v, ..r }
                } else if k == 6 {
                    LzmaRaw { nice_len: v, ..r }
                } else if k == 7 {
                    LzmaRaw { mf: v, ..r }
                } else {
                    LzmaRaw { depth: v, ..r }
                },
            ),
            _ => o,
        },
        OptionSet::Bcj => FilterOptions::Bcj { start_offset: v },
        OptionSet::Delta => FilterOptions::Delta { dist: v },
    }
}

/// What a multiplier suffix letter multiplies by, or 0 for none.
pub open spec fn suffix_mult(b: u8) -> nat {
    if b == 'k' as u8 || b == 'K' as u8 {
        1024
    } else if b == 'm' as u8 || b == 'M' as u8 {
        1024 * 1024
    } else if b == 'g' as u8 || b == 'G' as u8 {
        1024 * 1024 * 1024
    } else {
        0
    }
}

/// The position after an optional `i` and an optional `B` at `q`, within
/// `[q, e)`.
pub open spec fn suffix_tail(s: Seq<u8>, q: nat, e: nat) -> nat {
    let r2 = if q < e && at(s, q as int) == 'i' as u8 {
        q + 1
    } else {
        q
    };
    if r2 < e && at(s, r2 as int) == 'B' as u8 {
        r2 + 1
    } else {
        r2
    }
}

/// A numeric value with an optional suffix, before its range is checked.
pub open spec fn scaled_value(s: Seq<u8>, p: nat, e: nat, suffix_ok: bool) -> Result<nat, (StrError, nat)> {
    let q = digits_end(s, p, e);
    let v = decimal(s.subrange(p as int, q as int));
    if v > u32::MAX {
        Err((StrError::OutOfRange, p))
    } else if q < e {
        if !suffix_ok {
            Err((StrError::SuffixNotSupported, q))
        } else if suffix_mult(at(s, q as int)) == 0 || suffix_tail(s, q + 1, e) < e {
            Err((StrError::InvalidSuffix, q))
        } else if v * suffix_mult(at(s, q as int)) > u32::MAX {
            Err((StrError::OutOfRange, p))
        } else {
            Ok(v * suffix_mult(at(s, q as int)))
        }
    } else {
        Ok(v)
    }
}

/// The value of option `k` of `set` written in `s[p..e]`, or the error and
/// where it was found.
pub open spec fn parse_value(s: Seq<u8>, p: nat, e: nat, set: OptionSet, k: nat) -> Result<u32, (StrError, nat)> {
    if opt_uses_map(set, k) {
        match map_value(set, k, s.subrange(p as int, e as int)) {
            Some(v) => Ok(v),
            None => Err((StrError::InvalidOptionValue, p)),
        }
    } else if !is_digit(at(s, p as int)) {
        Err((StrError::NotDecimal, p))
    } else {
        match scaled_value(s, p, e, opt_byte_suffix(set, k)) {
            Err(x) => Err(x),
            Ok(w) => if w < opt_min(set, k) || w > opt_max(set, k) {
                Err((StrError::OutOfRange, p))
            } else {
                Ok(w as u32)
            },
        }
    }
}

/// The first position in `[q, e)` that is not an `e` flag, or `e`.
pub open spec fn preset_flags_end(s: Seq<u8>, q: nat, e: nat) -> nat
    decreases e - q,
{
    if q < e && at(s, q as int) == 'e' as u8 {
        preset_flags_end(s, q + 1, e)
    } else {
        q
    }
}

/// The preset written in `s[p..e]`: a level digit, then `e` flags.
pub open spec fn preset_value(s: Seq<u8>, p: nat, e: nat) -> Result<u32, (StrError, nat)> {
    if !is_digit(at(s, p as int)) {
        Err((StrError::UnsupportedPreset, p))
    } else if preset_flags_end(s, p + 1, e) < e {
        Err((StrError::UnsupportedPresetFlag, preset_flags_end(s, p + 1, e)))
    } else {
        Ok(
            ((at(s, p as int) - '0' as u8) + if e > p + 1 {
                LZMA_PRESET_EXTREME
            } else {
                0
            }) as u32,
        )
    }
}

fn opt_name_exec(set: OptionSet, k: usize) -> (r: Vec<u8>)
    ensures
        r@ == opt_name(set, k as nat),
{
    match set {
        OptionSet::Lzma12 => if k == 0 {
            vec!['p' as u8, 'r' as u8, 'e' as u8, 's' as u8, 'e' as u8, 't' as u8]
        } else if k == 1 {
            vec!['d' as u8, 'i' as u8, 'c' as u8, 't' as u8]
        } else if k == 2 {
            vec!['l' as u8, 'c' as u8]
        } else if k == 3 {
            vec!['l' as u8, 'p' as u8]
        } else if k == 4 {
            vec!['p' as u8, 'b' as u8]
        } else if k == 5 {
            vec!['m' as u8, 'o' as u8, 'd' as u8, 'e' as u8]
        } else if k == 6 {
            vec!['n' as u8, 'i' as u8, 'c' as u8, 'e' as u8]
        } else if k == 7 {
            vec!['m' as u8, 'f' as u8]
        } else {
            vec!['d' as u8, 'e' as u8, 'p' as u8, 't' as u8, 'h' as u8]
        },
        OptionSet::Bcj => vec!['s' as u8, 't' as u8, 'a' as u8, 'r' as u8, 't' as u8],
        OptionSet::Delta => vec!['d' as u8, 'i' as u8, 's' as u8, 't' as u8],
    }
}

fn find_opt_exec(set: OptionSet, s: &[u8], p: usize, e: usize) -> (r: Option<usize>)
    requires
        p <= e <= s@.len(),
    ensures
        match find_opt(set, s@.subrange(p as int, e as int)) {
            Some(k) => r == Some(k as usize) && k < opt_count(set),
            None => r is None,
        },
{
    let count: usize = match set {
        OptionSet::Lzma12 => 9,
        _ => 1,
    };
    let ghost name = s@.subrange(p as int, e as int);
    let mut k: usize = 0;
    while k < count
        invariant
            p <= e <= s@.len(),
            name == s@.subrange(p as int, e as int),
            count == opt_count(set),
            k <= count,
            forall|j: nat| j < k ==> name != opt_name(set, j),
        decreases count - k,
    {
        let n = opt_name_exec(set, k);
        if bytes_are(s, p, e, n.as_slice()) {
            return Some(k);
        }
        k = k + 1;
    }
    None
}

fn map_value_exec(set: OptionSet, k: usize, s: &[u8], p: usize, e: usize) -> (r: Option<u32>)
    requires
        p <= e <= s@.len(),
    ensures
        r == map_value(set, k as nat, s@.subrange(p as int, e as int)),
{
    if set == OptionSet::Lzma12 && k == 5 {
        let fast = ['f' as u8, 'a' as u8, 's' as u8, 't' as u8];
        let normal = ['n' as u8, 'o' as u8, 'r' as u8, 'm' as u8, 'a' as u8, 'l' as u8];
        if bytes_are(s, p, e, fast.as_slice()) {
            Some(1)
        } else if bytes_are(s, p, e, normal.as_slice()) {
            Some(2)
        } else {
            None
        }
    } else if set == OptionSet::Lzma12 && k == 7 {
        let hc3 = ['h' as u8, 'c' as u8, '3' as u8];
        let hc4 = ['h' as u8, 'c' as u8, '4' as u8];
        let bt2 = ['b' as u8, 't' as u8, '2' as u8];
        let bt3 = ['b' as u8, 't' as u8, '3' as u8];
        let bt4 = ['b' as u8, 't' as u8, '4' as u8];
        if bytes_are(s, p, e, hc3.as_slice()) {
            Some(0x03)
        } else if bytes_are(s, p, e, hc4.as_slice()) {
            Some(0x04)
        } else if bytes_are(s, p, e, bt2.as_slice()) {
            Some(0x12)
        } else if bytes_are(s, p, e, bt3.as_slice()) {
            Some(0x13)
        } else if bytes_are(s, p, e, bt4.as_slice()) {
            Some(0x14)
        } else {
            None
        }
    } else {
        None
    }
}

proof fn lemma_decimal_step(s: Seq<u8>, p: nat, q: nat)
    requires
        p <= q < s.len(),
    ensures
        decimal(s.subrange(p as int, (q + 1) as int)) == decimal(s.subrange(p as int, q as int)) * 10 + (
        s[q as int] - '0' as u8) as nat,
{
    assert(s.subrange(p as int, (q + 1) as int).drop_last() =~= s.subrange(p as int, q as int));
}

proof fn lemma_decimal_mono(s: Seq<u8>, p: nat, q1: nat, q2: nat)
    requires
        p <= q1 <= q2 <= s.len(),
    ensures
        decimal(s.subrange(p as int, q2 as int)) >= decimal(s.subrange(p as int, q1 as int)),
    decreases q2 - q1,
{
    if q1 < q2 {
        lemma_decimal_mono(s, p, q1, (q2 - 1) as nat);
        lemma_decimal_step(s, p, (q2 - 1) as nat);
    }
}

proof fn lemma_digits_end_past(s: Seq<u8>, q: nat, e: nat)
    requires
        q < e,
        is_digit(at(s, q as int)),
    ensures
        digits_end(s, q, e) > q,
    decreases e - q,
{
    lemma_digits_end_bound(s, q + 1, e);
}

proof fn lemma_digits_end_bound(s: Seq<u8>, q: nat, e: nat)
    requires
        q <= e,
    ensures
        q <= digits_end(s, q, e) <= e,
    decreases e - q,
{
    if q < e && is_digit(at(s, q as int)) {
        lemma_digits_end_bound(s, q + 1, e);
    }
}

fn suffix_mult_exec(b: u8) -> (r: u32)
    ensures
        r == suffix_mult(b),
{
    if b == 'k' as u8 || b == 'K' as u8 {
        1024
    } else if b == 'm' as u8 || b == 'M' as u8 {
        1024 * 1024
    } else if b == 'g' as u8 || b == 'G' as u8 {
        1024 * 1024 * 1024
    } else {
        0
    }
}

fn scaled_value_exec(s: &[u8], p: usize, e: usize, suffix_ok: bool) -> (r: Result<u32, (StrError, usize)>)
    requires
        p < e <= s@.len(),
        is_digit(at(s@, p as int)),
    ensures
        match scaled_value(s@, p as nat, e as nat, suffix_ok) {
            Ok(w) => r == Ok::<u32, (StrError, usize)>(w as u32) && w <= u32::MAX,
            Err((x, pos)) => r matches Err((x2, pos2)) && x2 == x && pos2 == pos,
        },
{
    let mut q = p;
    let mut v: u32 = 0;
    proof {
        assert(s@.subrange(p as int, p as int) =~= Seq::<u8>::empty());
    }
    while q < e && '0' as u8 <= s[q] && s[q] <= '9' as u8
        invariant
            p <= q <= e <= s@.len(),
            v == decimal(s@.subrange(p as int, q as int)),
            digits_end(s@, p as nat, e as nat) == digits_end(s@, q as nat, e as nat),
        decreases e - q,
    {
        let add = (s[q] - '0' as u8) as u32;
        proof {
            lemma_decimal_step(s@, p as nat, q as nat);
        }
        if v > u32::MAX / 10 || u32::MAX - add < v * 10 {
            proof {
                lemma_digits_end_past(s@, q as nat, e as nat);
                lemma_digits_end_bound(s@, q as nat, e as nat);
                lemma_decimal_mono(s@, p as nat, (q + 1) as nat, digits_end(s@, q as nat, e as nat));
            }
            return Err((StrError::OutOfRange, p));
        }
        v = v * 10 + add;
        q = q + 1;
    }
    proof {
        lemma_digits_end_bound(s@, q as nat, e as nat);
    }
    if q < e {
        if !suffix_ok {
            return Err((StrError::SuffixNotSupported, q));
        }
        let mult = suffix_mult_exec(s[q]);
        let mut t = q + 1;
        if t < e && s[t] == 'i' as u8 {
            t = t + 1;
        }
        if t < e && s[t] == 'B' as u8 {
            t = t + 1;
        }
        if mult == 0 || t < e {
            return Err((StrError::InvalidSuffix, q));
        }
        if v > u32::MAX / mult {
            proof {
                assert(v * mult > u32::MAX) by (nonlinear_arith)
                    requires
                        v > u32::MAX / mult,
                        mult > 0,
                ;
            }
            return Err((StrError::OutOfRange, p));
        }
        proof {
            assert(v * mult <= u32::MAX) by (nonlinear_arith)
                requires
                    v <= u32::MAX / mult,
                    mult > 0,
            ;
        }
        return Ok(v * mult);
    }
    Ok(v)
}

fn is_digit_exec(b: u8) -> (r: bool)
    ensures
        r == is_digit(b),
{
    '0' as u8 <= b && b <= '9' as u8
}

fn opt_min_max(set: OptionSet, k: usize) -> (r: (u32, u32))
    ensures
        r.0 == opt_min(set, k as nat),
        r.1 == opt_max(set, k as nat),
{
    match set {
        OptionSet::Lzma12 => if k == 1 {
            (LZMA_DICT_SIZE_MIN, 0x6000_0000)
        } else if k == 2 || k == 3 {
            (0, LZMA_LCLP_MAX)
        } else if k == 4 {
            (0, LZMA_PB_MAX)
        } else if k == 6 {
            (2, 273)
        } else {
            (0, u32::MAX)
        },
        OptionSet::Bcj => (0, u32::MAX),
        OptionSet::Delta => (LZMA_DELTA_DIST_MIN, LZMA_DELTA_DIST_MAX),
    }
}

fn parse_value_exec(s: &[u8], p: usize, e: usize, set: OptionSet, k: usize) -> (r: Result<u32, (StrError, usize)>)
    requires
        p < e <= s@.len(),
    ensures
        match parse_value(s@, p as nat, e as nat, set, k as nat) {
            Ok(v) => r == Ok::<u32, (StrError, usize)>(v),
            Err((x, pos)) => r matches Err((x2, pos2)) && x2 == x && pos2 == pos,
        },
{
    if set == OptionSet::Lzma12 && (k == 5 || k == 7) {
        return match map_value_exec(set, k, s, p, e) {
            Some(v) => Ok(v),
            None => Err((StrError::InvalidOptionValue, p)),
        };
    }
    if !is_digit_exec(s[p]) {
        return Err((StrError::NotDecimal, p));
    }
    let suffix_ok = (set == OptionSet::Lzma12 && k == 1) || set == OptionSet::Bcj;
    let w = match scaled_value_exec(s, p, e, suffix_ok) {
        Ok(w) => w,
        Err(x) => {
            return Err(x);
        },
    };
    let (lo, hi) = opt_min_max(set, k);
    if w < lo || w > hi {
        return Err((StrError::OutOfRange, p));
    }
    Ok(w)
}

fn preset_value_exec(s: &[u8], p: usize, e: usize) -> (r: Result<u32, (StrError, usize)>)
    requires
        p < e <= s@.len(),
    ensures
        match preset_value(s@, p as nat, e as nat) {
            Ok(v) => r == Ok::<u32, (StrError, usize)>(v),
            Err((x, pos)) => r matches Err((x2, pos2)) && x2 == x && pos2 == pos,
        },
{
    if !is_digit_exec(s[p]) {
        return Err((StrError::UnsupportedPreset, p));
    }
    let mut q = p + 1;
    while q < e && s[q] == 'e' as u8
        invariant
            p < q <= e <= s@.len(),
            preset_flags_end(s@, (p + 1) as nat, e as nat) == preset_flags_end(s@, q as nat, e as nat),
        decreases e - q,
    {
        q = q + 1;
    }
    if q < e {
        return Err((StrError::UnsupportedPresetFlag, q));
    }
    let level = (s[p] - '0' as u8) as u32;
    if e > p + 1 {
        Ok(level + LZMA_PRESET_EXTREME)
    } else {
        Ok(level)
    }
}

/// `find_byte` stays within `[p, e]`, stops only at `b`, and moves past a
/// first byte other than `b`.
pub proof fn lemma_find_byte(s: Seq<u8>, p: nat, e: nat, b: u8)
    requires
        p <= e,
    ensures
        p <= find_byte(s, p, e, b) <= e,
        find_byte(s, p, e, b) < e ==> at(s, find_byte(s, p, e, b) as int) == b,
        p < e && at(s, p as int) != b ==> find_byte(s, p, e, b) > p,
    decreases e - p,
{
    if p < e && at(s, p as int) != b {
        lemma_find_byte(s, p + 1, e, b);
    }
}

/// Reads the options of a filter of option set `set` from `s[p..e]`, over
/// `o`: the options then and where reading stopped, or the error and where
/// it was found.
pub open spec fn parse_opts(s: Seq<u8>, p: nat, e: nat, set: OptionSet, o: FilterOptions) -> Result<
    (FilterOptions, nat),
    (StrError, nat),
>
    decreases e - p,
{
    if p >= e || at(s, p as int) == 0 {
        Ok((o, p))
    } else if at(s, p as int) == ',' as u8 {
        parse_opts(s, p + 1, e, set, o)
    } else {
        let nev = find_byte(s, p, e, ',' as u8);
        let eq = find_byte(s, p, nev, '=' as u8);
        proof {
            lemma_find_byte(s, p, e, ',' as u8);
        }
        if eq == nev || at(s, p as int) == '=' as u8 {
            Err((StrError::NotNameValue, p))
        } else {
            match find_opt(set, s.subrange(p as int, eq as int)) {
                None => Err((StrError::UnknownOptionName, p)),
                Some(k) => if eq + 1 == nev {
                    Err((StrError::EmptyValue, nev))
                } else if opt_is_preset(set, k) {
                    match preset_value(s, eq + 1, nev) {
                        Err(x) => Err(x),
                        Ok(pr) => match preset_options(pr) {
                            None => Err((StrError::UnsupportedPreset, nev)),
                            Some(raw) => parse_opts(s, nev, e, set, FilterOptions::Lzma(raw)),
                        },
                    }
                } else {
                    match parse_value(s, eq + 1, nev, set, k) {
                        Err(x) => Err(x),
                        Ok(v) => parse_opts(s, nev, e, set, set_field(o, set, k, v)),
                    }
                },
            }
        }
    }
}

fn set_field_exec(o: FilterOptions, set: OptionSet, k: usize, v: u32) -> (r: FilterOptions)
    ensures
        r == set_field(o, set, k as nat, v),
{
    match set {
        OptionSet::Lzma12 => match o {
            FilterOptions::Lzma(r) => FilterOptions::Lzma(
                if k == 1 {
                    LzmaRaw { dict_size: v, ..r }
                } else if k == 2 {
                    LzmaRaw { lc: v, ..r }
                } else if k == 3 {
                    LzmaRaw { lp: v, ..r }
                } else if k == 4 {
                    LzmaRaw { pb: v, ..r }
                } else if k == 5 {
                    LzmaRaw { mode: v, ..r }
                } else if k == 6 {
                    LzmaRaw { nice_len: v, ..r }
                } else if k == 7 {
                    LzmaRaw { mf: v, ..r }
                } else {
                    LzmaRaw { depth: v, ..r }
                },
            ),
            _ => o,
        },
        OptionSet::Bcj => FilterOptions::Bcj { start_offset: v },
        OptionSet::Delta => FilterOptions::Delta { dist: v },
    }
}

/// Options of an LZMA filter with every field zero.
fn zero_lzma() -> (r: LzmaRaw)
    ensures
        r == (LzmaRaw { dict_size: 0, lc: 0, lp: 0, pb: 0, mode: 0, nice_len: 0, mf: 0, depth: 0 }),
{
    LzmaRaw { dict_size: 0, lc: 0, lp: 0, pb: 0, mode: 0, nice_len: 0, mf: 0, depth: 0 }
}

fn parse_opts_exec(s: &[u8], start: usize, e: usize, set: OptionSet, opts: FilterOptions) -> (r: Result<
    (FilterOptions, usize),
    (StrError, usize),
>)
    requires
        start <= e <= s@.len(),
    ensures
        match parse_opts(s@, start as nat, e as nat, set, opts) {
            Ok((o2, q)) => r matches Ok((o3, q2)) && o3 == o2 && q2 == q && q <= e,
            Err((x, q)) => r matches Err((x2, q2)) && x2 == x && q2 == q,
        },
{
    let ghost whole = parse_opts(s@, start as nat, e as nat, set, opts);
    let mut p = start;
    let mut o = opts;
    while p < e && s[p] != 0
        invariant
            p <= e <= s@.len(),
            whole == parse_opts(s@, start as nat, e as nat, set, opts),
            whole == parse_opts(s@, p as nat, e as nat, set, o),
        decreases e - p,
    {
        if s[p] == ',' as u8 {
            p = p + 1;
        } else {
            let nev = find_byte_exec(s, p, e, ',' as u8);
            let eq = find_byte_exec(s, p, nev, '=' as u8);
            proof {
                lemma_find_byte(s@, p as nat, e as nat, ',' as u8);
            }
            if eq == nev || s[p] == '=' as u8 {
                return Err((StrError::NotNameValue, p));
            }
            let k = match find_opt_exec(set, s, p, eq) {
                Some(k) => k,
                None => {
                    return Err((StrError::UnknownOptionName, p));
                },
            };
            if eq + 1 == nev {
                return Err((StrError::EmptyValue, nev));
            }
            if set == OptionSet::Lzma12 && k == 0 {
                let preset = match preset_value_exec(s, eq + 1, nev) {
                    Ok(v) => v,
                    Err(x) => {
                        return Err(x);
                    },
                };
                let mut raw = zero_lzma();
                if lzma_lzma_preset(&mut raw, preset) {
                    return Err((StrError::UnsupportedPreset, nev));
                }
                o = FilterOptions::Lzma(raw);
            } else {
                let v = match parse_value_exec(s, eq + 1, nev, set, k) {
                    Ok(v) => v,
                    Err(x) => {
                        return Err(x);
                    },
                };
                o = set_field_exec(o, set, k, v);
            }
            p = nev;
        }
    }
    Ok((o, p))
}

/// Name of filter `j` of the table of filter names.
pub open spec fn filter_name(j: nat) -> Seq<u8> {
    if j == 0 {
        seq!['l' as u8, 'z' as u8, 'm' as u8, 'a' as u8, '1' as u8]
    } else if j == 1 {
        seq!['l' as u8, 'z' as u8, 'm' as u8, 'a' as u8, '2' as u8]
    } else if j == 2 {
        seq!['x' as u8, '8' as u8, '6' as u8]
    } else if j == 3 {
        seq!['a' as u8, 'r' as u8, 'm' as u8]
    } else if j == 4 {
        seq!['a' as u8, 'r' as u8, 'm' as u8, 't' as u8, 'h' as u8, 'u' as u8, 'm' as u8, 'b' as u8]
    } else if j == 5 {
        seq!['a' as u8, 'r' as u8, 'm' as u8, '6' as u8, '4' as u8]
    } else if j == 6 {
        seq!['r' as u8, 'i' as u8, 's' as u8, 'c' as u8, 'v' as u8]
    } else if j == 7 {
        seq!['p' as u8, 'o' as u8, 'w' as u8, 'e' as u8, 'r' as u8, 'p' as u8, 'c' as u8]
    } else if j == 8 {
        seq!['i' as u8, 'a' as u8, '6' as u8, '4' as u8]
    } else if j == 9 {
        seq!['s' as u8, 'p' as u8, 'a' as u8, 'r' as u8, 'c' as u8]
    } else {
        seq!['d' as u8, 'e' as u8, 'l' as u8, 't' as u8, 'a' as u8]
    }
}

/// Number of entries of the table of filter names.
pub const FILTER_NAME_COUNT: usize = 11;

/// Filter ID of entry `j` of the table of filter names.
pub open spec fn filter_id(j: nat) -> u64 {
    if j == 0 {
        LZMA_FILTER_LZMA1
    } else if j == 1 {
        LZMA_FILTER_LZMA2
    } else if j == 2 {
        LZMA_FILTER_X86
    } else if j == 3 {
        LZMA_FILTER_ARM
    } else if j == 4 {
        LZMA_FILTER_ARMTHUMB
    } else if j == 5 {
        LZMA_FILTER_ARM64
    } else if j == 6 {
        LZMA_FILTER_RISCV
    } else if j == 7 {
        LZMA_FILTER_POWERPC
    } else if j == 8 {
        LZMA_FILTER_IA64
    } else if j == 9 {
        LZMA_FILTER_SPARC
    } else {
        LZMA_FILTER_DELTA
    }
}

/// Options of entry `j` of the table of filter names.
pub open spec fn filter_set(j: nat) -> OptionSet {
    if j <= 1 {
        OptionSet::Lzma12
    } else if j <= 9 {
        OptionSet::Bcj
    } else {
        OptionSet::Delta
    }
}

/// The entry of the table of filter names named `name`: the first whose
/// name it is.
pub open spec fn find_filter(name: Seq<u8>) -> Option<nat> {
    if exists|j: nat| j < FILTER_NAME_COUNT && filter_name(j) == name {
        Some(choose|j: nat| j < FILTER_NAME_COUNT && filter_name(j) == name && forall|i: nat| i < j ==> filter_name(i) != name)
    } else {
        None
    }
}

/// The options a filter of `set` starts from before its options are read:
/// preset 6 for LZMA1 and LZMA2, start offset 0, distance 1.
pub open spec fn initial_options(set: OptionSet) -> FilterOptions {
    match set {
        OptionSet::Lzma12 => FilterOptions::Lzma(preset_options(LZMA_PRESET_DEFAULT).unwrap()),
        OptionSet::Bcj => FilterOptions::Bcj { start_offset: 0 },
        OptionSet::Delta => FilterOptions::Delta { dist: LZMA_DELTA_DIST_MIN },
    }
}

/// The first `:` or `=` in `[p, e)`, or `e`.
pub open spec fn name_end(s: Seq<u8>, p: nat, e: nat) -> nat
    decreases e - p,
{
    if p >= e || at(s, p as int) == ':' as u8 || at(s, p as int) == '=' as u8 {
        p
    } else {
        name_end(s, p + 1, e)
    }
}

/// `lc` and `lp` of LZMA options `o` add up to more than 4.
pub open spec fn lclp_too_big(o: FilterOptions) -> bool {
    match o {
        FilterOptions::Lzma(r) => r.lc + r.lp > LZMA_LCLP_MAX,
        _ => false,
    }
}

/// Reads one filter, its name and its options, from `s[p..e]`; `only_xz`
/// refuses filters that the .xz format does not allow.
pub open spec fn parse_filter(s: Seq<u8>, p: nat, e: nat, only_xz: bool) -> Result<(Filter, nat), (StrError, nat)> {
    let ne = name_end(s, p, e);
    let os = if ne < e {
        ne + 1
    } else {
        e
    };
    match find_filter(s.subrange(p as int, ne as int)) {
        None => Err((StrError::UnknownFilterName, p)),
        Some(j) => if only_xz && filter_id(j) >= LZMA_FILTER_RESERVED_START {
            Err((StrError::NotForXz, p))
        } else {
            match parse_opts(s, os, e, filter_set(j), initial_options(filter_set(j))) {
                Err(x) => Err(x),
                Ok((o, q)) => if filter_set(j) == OptionSet::Lzma12 && lclp_too_big(o) {
                    Err((StrError::LcLpTooBig, q))
                } else {
                    Ok((Filter { id: filter_id(j), options: o }, q))
                },
            }
        },
    }
}

fn filter_name_exec(j: usize) -> (r: Vec<u8>)
    ensures
        r@ == filter_name(j as nat),
{
    if j == 0 {
        vec!['l' as u8, 'z' as u8, 'm' as u8, 'a' as u8, '1' as u8]
    } else if j == 1 {
        vec!['l' as u8, 'z' as u8, 'm' as u8, 'a' as u8, '2' as u8]
    } else if j == 2 {
        vec!['x' as u8, '8' as u8, '6' as u8]
    } else if j == 3 {
        vec!['a' as u8, 'r' as u8, 'm' as u8]
    } else if j == 4 {
        vec!['a' as u8, 'r' as u8, 'm' as u8, 't' as u8, 'h' as u8, 'u' as u8, 'm' as u8, 'b' as u8]
    } else if j == 5 {
        vec!['a' as u8, 'r' as u8, 'm' as u8, '6' as u8, '4' as u8]
    } else if j == 6 {
        vec!['r' as u8, 'i' as u8, 's' as u8, 'c' as u8, 'v' as u8]
    } else if j == 7 {
        vec!['p' as u8, 'o' as u8, 'w' as u8, 'e' as u8, 'r' as u8, 'p' as u8, 'c' as u8]
    } else if j == 8 {
        vec!['i' as u8, 'a' as u8, '6' as u8, '4' as u8]
    } else if j == 9 {
        vec!['s' as u8, 'p' as u8, 'a' as u8, 'r' as u8, 'c' as u8]
    } else {
        vec!['d' as u8, 'e' as u8, 'l' as u8, 't' as u8, 'a' as u8]
    }
}

fn filter_id_exec(j: usize) -> (r: u64)
    ensures
        r == filter_id(j as nat),
{
    if j == 0 {
        LZMA_FILTER_LZMA1
    } else if j == 1 {
        LZMA_FILTER_LZMA2
    } else if j == 2 {
        LZMA_FILTER_X86
    } else if j == 3 {
        LZMA_FILTER_ARM
    } else if j == 4 {
        LZMA_FILTER_ARMTHUMB
    } else if j == 5 {
        LZMA_FILTER_ARM64
    } else if j == 6 {
        LZMA_FILTER_RISCV
    } else if j == 7 {
        LZMA_FILTER_POWERPC
    } else if j == 8 {
        LZMA_FILTER_IA64
    } else if j == 9 {
        LZMA_FILTER_SPARC
    } else {
        LZMA_FILTER_DELTA
    }
}

fn find_filter_exec(s: &[u8], p: usize, e: usize) -> (r: Option<usize>)
    requires
        p <= e <= s@.len(),
    ensures
        match find_filter(s@.subrange(p as int, e as int)) {
            Some(j) => r == Some(j as usize) && j < FILTER_NAME_COUNT,
            None => r is None,
        },
{
    let ghost name = s@.subrange(p as int, e as int);
    let mut j: usize = 0;
    while j < FILTER_NAME_COUNT
        invariant
            p <= e <= s@.len(),
            name == s@.subrange(p as int, e as int),
            j <= FILTER_NAME_COUNT,
            forall|i: nat| i < j ==> filter_name(i) != name,
        decreases FILTER_NAME_COUNT - j,
    {
        let n = filter_name_exec(j);
        if bytes_are(s, p, e, n.as_slice()) {
            proof {
                let c = choose|i: nat| i < FILTER_NAME_COUNT && filter_name(i) == name && forall|k: nat| k < i ==> filter_name(k) != name;
                assert(j as nat == c) by {
                    if c < j {
                    } else if c > j {
                        assert(filter_name(j as nat) == name);
                    }
                }
            }
            return Some(j);
        }
        j = j + 1;
    }
    None
}

fn initial_options_exec(set: OptionSet) -> (r: FilterOptions)
    ensures
        r == initial_options(set),
{
    match set {
        OptionSet::Lzma12 => {
            let mut raw = zero_lzma();
            proof {
                assert(6u32 & 0x1fu32 == 6u32 && (6u32 & !0x1fu32) & !0x8000_0000u32 == 0u32) by (bit_vector);
                assert(preset_options(LZMA_PRESET_DEFAULT) is Some);
            }
            let _bad = lzma_lzma_preset(&mut raw, LZMA_PRESET_DEFAULT);
            FilterOptions::Lzma(raw)
        },
        OptionSet::Bcj => FilterOptions::Bcj { start_offset: 0 },
        OptionSet::Delta => FilterOptions::Delta { dist: LZMA_DELTA_DIST_MIN },
    }
}

fn parse_filter_exec(s: &[u8], p: usize, e: usize, only_xz: bool) -> (r: Result<(Filter, usize), (StrError, usize)>)
    requires
        p <= e <= s@.len(),
    ensures
        match parse_filter(s@, p as nat, e as nat, only_xz) {
            Ok((f, q)) => r matches Ok((f2, q2)) && f2 == f && q2 == q && q <= e
                && f.id != LZMA_VLI_UNKNOWN,
            Err((x, q)) => r matches Err((x2, q2)) && x2 == x && q2 == q,
        },
{
    let mut ne = p;
    while ne < e && s[ne] != ':' as u8 && s[ne] != '=' as u8
        invariant
            p <= ne <= e <= s@.len(),
            name_end(s@, p as nat, e as nat) == name_end(s@, ne as nat, e as nat),
        decreases e - ne,
    {
        ne = ne + 1;
    }
    let os = if ne < e {
        ne + 1
    } else {
        e
    };
    let j = match find_filter_exec(s, p, ne) {
        Some(j) => j,
        None => {
            return Err((StrError::UnknownFilterName, p));
        },
    };
    let id = filter_id_exec(j);
    if only_xz && id >= LZMA_FILTER_RESERVED_START {
        return Err((StrError::NotForXz, p));
    }
    let set = if j <= 1 {
        OptionSet::Lzma12
    } else if j <= 9 {
        OptionSet::Bcj
    } else {
        OptionSet::Delta
    };
    let init = initial_options_exec(set);
    let (o, q) = match parse_opts_exec(s, os, e, set, init) {
        Ok(x) => x,
        Err(x) => {
            return Err(x);
        },
    };
    if set == OptionSet::Lzma12 {
        if let FilterOptions::Lzma(r) = o {
            if r.lc as u64 + r.lp as u64 > LZMA_LCLP_MAX as u64 {
                return Err((StrError::LcLpTooBig, q));
            }
        }
    }
    Ok((Filter { id, options: o }, q))
}

/// Where the filter at `p` ends: at the end of the string, at a space or
/// at `--`.
pub open spec fn filter_end(s: Seq<u8>, p: nat) -> nat
    decreases s.len() - p,
{
    if p < s.len() && s[p as int] != 0 && s[p as int] != ' ' as u8 && !(s[p as int] == '-' as u8
        && at(s, p + 1int) == '-' as u8) {
        filter_end(s, p + 1)
    } else {
        p
    }
}

/// The filter that ends a chain.
pub open spec fn end_marker() -> Filter {
    Filter { id: LZMA_VLI_UNKNOWN, options: FilterOptions::Absent }
}

/// Reads filters from `p` on, after the filters `acc` read so far: each is
/// optionally preceded by `--` and followed by spaces; the string ends the
/// chain, which has at most four filters.
pub open spec fn parse_chain(s: Seq<u8>, p: nat, acc: Seq<Filter>, only_xz: bool) -> Result<
    (Seq<Filter>, nat),
    (StrError, nat),
>
    decreases 4 - acc.len(),
{
    if acc.len() >= 4 {
        Err((StrError::TooManyFilters, p))
    } else {
        let p1 = if at(s, p as int) == '-' as u8 && at(s, p + 1int) == '-' as u8 {
            p + 2
        } else {
            p
        };
        let fe = filter_end(s, p1);
        if fe == p1 {
            Err((StrError::FilterNameMissing, p1))
        } else {
            match parse_filter(s, p1, fe, only_xz) {
                Err(x) => Err(x),
                Ok((f, q)) => {
                    let q2 = skip_spaces(s, q);
                    if at(s, q2 as int) == 0 {
                        Ok((acc.push(f), q2))
                    } else {
                        parse_chain(s, q2, acc.push(f), only_xz)
                    }
                },
            }
        }
    }
}

/// What `lzma_str_to_filters` makes of the string `s` with `flags`: the
/// filters and where reading stopped, or the error and where it was found.
///
/// After leading spaces, a digit (or `-` and a digit) starts a preset,
/// which gives an LZMA2 filter; it may be followed by spaces only.
/// Anything else is a chain of filters, validated unless
/// `LZMA_STR_NO_VALIDATION` is set.
pub open spec fn str_to_filters_result(s: Seq<u8>, flags: u32) -> Result<(Seq<Filter>, nat), (StrError, nat)> {
    let p = skip_spaces(s, 0);
    let c = at(s, p as int);
    if c == 0 {
        Err((StrError::Empty, p))
    } else if is_digit(c) || (c == '-' as u8 && is_digit(at(s, p + 1int))) {
        let p1 = if c == '-' as u8 {
            p + 1
        } else {
            p
        };
        let se = string_end(s, p1);
        let sp = find_byte(s, p1, se, ' ' as u8);
        if sp < se && skip_spaces(s, sp + 1) < se {
            Err((StrError::UnsupportedPreset, p1))
        } else {
            match preset_value(s, p1, sp) {
                Err(x) => Err(x),
                Ok(pr) => match preset_options(pr) {
                    None => Err((StrError::UnsupportedPreset, sp)),
                    Some(raw) => Ok(
                        (seq![Filter { id: LZMA_FILTER_LZMA2, options: FilterOptions::Lzma(raw) }], sp),
                    ),
                },
            }
        }
    } else {
        match parse_chain(s, p, Seq::empty(), flags & LZMA_STR_ALL_FILTERS == 0) {
            Err(x) => Err(x),
            Ok((chain, q)) => if flags & LZMA_STR_NO_VALIDATION == 0 && !chain_valid(
                chain.push(end_marker()),
                chain.len(),
            ) {
                Err((StrError::InvalidChain, q))
            } else {
                Ok((chain, q))
            },
        }
    }
}

proof fn lemma_skip_spaces(s: Seq<u8>, p: nat)
    ensures
        p <= skip_spaces(s, p),
        p <= s.len() ==> skip_spaces(s, p) <= s.len(),
    decreases s.len() - p,
{
    if p < s.len() && s[p as int] == ' ' as u8 {
        lemma_skip_spaces(s, p + 1);
    }
}

proof fn lemma_string_end(s: Seq<u8>, p: nat)
    requires
        p <= s.len(),
    ensures
        p <= string_end(s, p) <= s.len(),
        p < s.len() && s[p as int] != 0 ==> string_end(s, p) > p,
    decreases s.len() - p,
{
    if p < s.len() && s[p as int] != 0 {
        lemma_string_end(s, p + 1);
    }
}

proof fn lemma_filter_end(s: Seq<u8>, p: nat)
    requires
        p <= s.len(),
    ensures
        p <= filter_end(s, p) <= s.len(),
    decreases s.len() - p,
{
    if p < s.len() && s[p as int] != 0 && s[p as int] != ' ' as u8 && !(s[p as int] == '-' as u8
        && at(s, p + 1int) == '-' as u8) {
        lemma_filter_end(s, p + 1);
    }
}

fn filter_end_exec(s: &[u8], p: usize) -> (r: usize)
    requires
        p <= s@.len(),
    ensures
        r == filter_end(s@, p as nat),
        p <= r <= s@.len(),
{
    proof {
        lemma_filter_end(s@, p as nat);
    }
    let mut q = p;
    while q < s.len() && s[q] != 0 && s[q] != ' ' as u8 && !(s[q] == '-' as u8 && byte_at(s, q + 1)
        == '-' as u8)
        invariant
            p <= q <= s@.len(),
            filter_end(s@, p as nat) == filter_end(s@, q as nat),
        decreases s@.len() - q,
    {
        q = q + 1;
    }
    q
}

fn parse_chain_exec(s: &[u8], start: usize, only_xz: bool) -> (r: Result<(Vec<Filter>, usize), (StrError, usize)>)
    requires
        start <= s@.len(),
    ensures
        match parse_chain(s@, start as nat, Seq::empty(), only_xz) {
            Ok((chain, q)) => r matches Ok((v, q2)) && v@ == chain && q2 == q && forall|k: int|
                0 <= k < chain.len() ==> (#[trigger] chain[k]).id != LZMA_VLI_UNKNOWN,
            Err((x, q)) => r matches Err((x2, q2)) && x2 == x && q2 == q,
        },
{
    let ghost whole = parse_chain(s@, start as nat, Seq::empty(), only_xz);
    let mut acc: Vec<Filter> = Vec::new();
    let mut p = start;
    loop
        invariant
            p <= s@.len(),
            acc@.len() <= 4,
            whole == parse_chain(s@, start as nat, Seq::empty(), only_xz),
            whole == parse_chain(s@, p as nat, acc@, only_xz),
            forall|k: int| 0 <= k < acc@.len() ==> (#[trigger] acc@[k]).id != LZMA_VLI_UNKNOWN,
        decreases 4 - acc@.len(),
    {
        if acc.len() >= 4 {
            return Err((StrError::TooManyFilters, p));
        }
        let mut p1 = p;
        if p < s.len() && s[p] == '-' as u8 && p + 1 < s.len() && s[p + 1] == '-' as u8 {
            p1 = p + 2;
        }
        let fe = filter_end_exec(s, p1);
        if fe == p1 {
            return Err((StrError::FilterNameMissing, p1));
        }
        let (f, q) = match parse_filter_exec(s, p1, fe, only_xz) {
            Ok(x) => x,
            Err(x) => {
                return Err(x);
            },
        };
        acc.push(f);
        let q2 = skip_spaces_exec(s, q);
        proof {
            lemma_skip_spaces(s@, q as nat);
        }
        if byte_at(s, q2) == 0 {
            return Ok((acc, q2));
        }
        p = q2;
    }
}

fn str_to_filters_exec(s: &[u8], flags: u32) -> (r: Result<(Vec<Filter>, usize), (StrError, usize)>)
    ensures
        match str_to_filters_result(s@, flags) {
            Ok((chain, q)) => r matches Ok((v, q2)) && v@ == chain && q2 == q,
            Err((x, q)) => r matches Err((x2, q2)) && x2 == x && q2 == q,
        },
{
    let p = skip_spaces_exec(s, 0);
    proof {
        lemma_skip_spaces(s@, 0);
    }
    let c = byte_at(s, p);
    if c == 0 {
        return Err((StrError::Empty, p));
    }
    if is_digit_exec(c) || (c == '-' as u8 && p < s.len() && is_digit_exec(byte_at(s, p + 1))) {
        let p1 = if c == '-' as u8 {
            p + 1
        } else {
            p
        };
        let se = string_end_exec(s, p1);
        proof {
            lemma_string_end(s@, p1 as nat);
        }
        let sp = find_byte_exec(s, p1, se, ' ' as u8);
        proof {
            lemma_find_byte(s@, p1 as nat, se as nat, ' ' as u8);
        }
        if sp < se {
            let t = skip_spaces_exec(s, sp + 1);
            if t < se {
                return Err((StrError::UnsupportedPreset, p1));
            }
        }
        let preset = match preset_value_exec(s, p1, sp) {
            Ok(v) => v,
            Err(x) => {
                return Err(x);
            },
        };
        let mut raw = zero_lzma();
        if lzma_lzma_preset(&mut raw, preset) {
            return Err((StrError::UnsupportedPreset, sp));
        }
        let mut v: Vec<Filter> = Vec::new();
        v.push(Filter { id: LZMA_FILTER_LZMA2, options: FilterOptions::Lzma(raw) });
        proof {
            assert(v@ =~= seq![Filter { id: LZMA_FILTER_LZMA2, options: FilterOptions::Lzma(raw) }]);
        }
        return Ok((v, sp));
    }
    let (chain, q) = match parse_chain_exec(s, p, flags & LZMA_STR_ALL_FILTERS == 0) {
        Ok(x) => x,
        Err(x) => {
            return Err(x);
        },
    };
    if flags & LZMA_STR_NO_VALIDATION == 0 {
        let mut temp: Vec<Filter> = Vec::new();
        let mut i: usize = 0;
        while i < chain.len()
            invariant
                i <= chain@.len(),
                temp@ == chain@.take(i as int),
            decreases chain@.len() - i,
        {
            temp.push(chain[i]);
            i = i + 1;
            proof {
                assert(temp@ =~= chain@.take(i as int));
            }
        }
        temp.push(Filter { id: LZMA_VLI_UNKNOWN, options: FilterOptions::Absent });
        proof {
            assert(temp@ =~= chain@.push(end_marker()));
            assert(temp@[chain@.len() as int].id == LZMA_VLI_UNKNOWN);
            assert forall|k: int| 0 <= k < chain@.len() implies temp@[k].id != LZMA_VLI_UNKNOWN by {
                assert(temp@[k] == chain@[k]);
            }
            crate::filter::lemma_chain_len_exact(temp@, chain@.len());
        }
        match lzma_validate_chain(temp.as_slice()) {
            Ok(_) => {},
            Err(_) => {
                return Err((StrError::InvalidChain, q));
            },
        }
    }
    Ok((chain, q))
}

proof fn lemma_parse_chain_len(s: Seq<u8>, p: nat, acc: Seq<Filter>, only_xz: bool)
    requires
        acc.len() <= 4,
    ensures
        parse_chain(s, p, acc, only_xz) matches Ok((c, _)) ==> c.len() <= 4,
    decreases 4 - acc.len(),
{
    if acc.len() < 4 {
        let p1 = if at(s, p as int) == '-' as u8 && at(s, p + 1int) == '-' as u8 {
            p + 2
        } else {
            p
        };
        let fe = filter_end(s, p1);
        if fe != p1 {
            match parse_filter(s, p1, fe, only_xz) {
                Ok((f, q)) => {
                    lemma_parse_chain_len(s, skip_spaces(s, q), acc.push(f), only_xz);
                },
                Err(_) => {},
            }
        }
    }
}

/// A parsed chain has at most four filters.
proof fn lemma_chain_fits(s: Seq<u8>, flags: u32)
    ensures
        str_to_filters_result(s, flags) matches Ok((c, _)) ==> c.len() <= 4,
{
    lemma_parse_chain_len(s, skip_spaces(s, 0), Seq::empty(), flags & LZMA_STR_ALL_FILTERS == 0);
}

/// `n` as an `i32`, at most `i32::MAX`.
pub open spec fn clamp_pos(n: nat) -> i32 {
    if n > i32::MAX {
        i32::MAX
    } else {
        n as i32
    }
}

/// Parses the filter chain in the string `input` into `filters`.
///
/// Returns `None` on success: `filters` then starts with the parsed filters
/// and the end marker after them, the entries after those untouched.
/// Otherwise returns the error and leaves `filters` untouched. Either way
/// `*error_pos` is where reading stopped: the end of what was parsed, or
/// where the error was found (0 for unsupported flags).
pub fn lzma_str_to_filters(input: &[u8], error_pos: &mut i32, filters: &mut [Filter; 5], flags: u32) -> (r: Option<StrError>)
    ensures
        flags & !(LZMA_STR_ALL_FILTERS | LZMA_STR_NO_VALIDATION) != 0 ==> {
            &&& r == Some(StrError::UnsupportedFlags)
            &&& *final(error_pos) == 0
            &&& final(filters)@ == old(filters)@
        },
        flags & !(LZMA_STR_ALL_FILTERS | LZMA_STR_NO_VALIDATION) == 0 ==> match str_to_filters_result(input@, flags) {
            Ok((chain, q)) => {
                &&& r is None
                &&& *final(error_pos) == clamp_pos(q)
                &&& final(filters)@ == chain.push(end_marker()) + old(filters)@.skip(chain.len() + 1int)
            },
            Err((x, q)) => {
                &&& r == Some(x)
                &&& *final(error_pos) == clamp_pos(q)
                &&& final(filters)@ == old(filters)@
            },
        },
{
    *error_pos = 0;
    if flags & !(LZMA_STR_ALL_FILTERS | LZMA_STR_NO_VALIDATION) != 0 {
        return Some(StrError::UnsupportedFlags);
    }
    let res = str_to_filters_exec(input, flags);
    let used = match &res {
        Ok((_, q)) => *q,
        Err((_, q)) => *q,
    };
    *error_pos = if used > i32::MAX as usize {
        i32::MAX
    } else {
        used as i32
    };
    match res {
        Ok((chain, _)) => {
            proof {
                lemma_chain_fits(input@, flags);
            }
            let ghost old_filters = filters@;
            let n = chain.len();
            let mut i: usize = 0;
            while i < n
                invariant
                    n == chain@.len(),
                    n <= 4,
                    i <= n,
                    filters@.len() == 5,
                    forall|k: int| 0 <= k < i ==> filters@[k] == chain@[k],
                    forall|k: int| i <= k < 5 ==> filters@[k] == old_filters[k],
                decreases n - i,
            {
                filters[i] = chain[i];
                i = i + 1;
            }
            filters[n] = Filter { id: LZMA_VLI_UNKNOWN, options: FilterOptions::Absent };
            proof {
                assert(filters@ =~= chain@.push(end_marker()) + old_filters.skip(n + 1int));
            }
            None
        },
        Err((x, _)) => Some(x),
    }
}

} // verus!
