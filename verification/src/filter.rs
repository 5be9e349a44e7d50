//! Filters of a filter chain: their options, the encoding of those options in
//! a .xz file (the Filter Properties), and which chains are valid.
use vstd::prelude::*;
use crate::types::{
    le32_bytes, le32_value, lemma_le32_roundtrip, read32le, write32le, LZMA_FILTERS_MAX,
    LZMA_FILTER_ARM, LZMA_FILTER_ARM64, LZMA_FILTER_ARMTHUMB, LZMA_FILTER_DELTA,
    LZMA_FILTER_IA64, LZMA_FILTER_LZMA1, LZMA_FILTER_LZMA1EXT, LZMA_FILTER_LZMA2,
    LZMA_FILTER_POWERPC, LZMA_FILTER_RISCV, LZMA_FILTER_SPARC, LZMA_FILTER_X86, LZMA_OK,
    LZMA_OPTIONS_ERROR, LZMA_PROG_ERROR, LZMA_VLI_MAX, LZMA_VLI_UNKNOWN,
};

verus! {

/// Smallest dictionary size.
pub const LZMA_DICT_SIZE_MIN: u32 = 4096;
/// Largest sum of literal context and literal position bits.
pub const LZMA_LCLP_MAX: u32 = 4;
/// Largest number of position bits.
pub const LZMA_PB_MAX: u32 = 4;
/// Mode code of fast compression.
pub const LZMA_MODE_FAST: u32 = 1;
/// Mode code of normal compression.
pub const LZMA_MODE_NORMAL: u32 = 2;
/// Match finder code: hash chain with 2- and 3-byte hashing.
pub const LZMA_MF_HC3: u32 = 0x03;
/// Match finder code: hash chain with 2-, 3- and 4-byte hashing.
pub const LZMA_MF_HC4: u32 = 0x04;
/// Match finder code: binary tree with 2-byte hashing.
pub const LZMA_MF_BT2: u32 = 0x12;
/// Match finder code: binary tree with 2- and 3-byte hashing.
pub const LZMA_MF_BT3: u32 = 0x13;
/// Match finder code: binary tree with 2-, 3- and 4-byte hashing.
pub const LZMA_MF_BT4: u32 = 0x14;
/// Smallest delta distance.
pub const LZMA_DELTA_DIST_MIN: u32 = 1;
/// Largest delta distance.
pub const LZMA_DELTA_DIST_MAX: u32 = 256;
/// First filter ID reserved for the future.
pub const LZMA_FILTER_RESERVED_START: u64 = 0x4000_0000_0000_0000;

/// Options of the LZMA1 and LZMA2 filters.
#[derive(Clone, Copy, Debug, PartialEq, Eq, Structural)]
pub struct LzmaRaw {
    /// Dictionary size in bytes.
    pub dict_size: u32,
    /// Number of literal context bits.
    pub lc: u32,
    /// Number of literal position bits.
    pub lp: u32,
    /// Number of position bits.
    pub pb: u32,
    /// Compression mode code.
    pub mode: u32,
    /// Nice length of a match.
    pub nice_len: u32,
    /// Match finder code.
    pub mf: u32,
    /// Maximum search depth of the match finder (0 for automatic).
    pub depth: u32,
}

/// Options of a filter.
#[derive(Clone, Copy, Debug, PartialEq, Eq, Structural)]
pub enum FilterOptions {
    /// No options (a branch converter with start offset 0, or not yet set).
    Absent,
    /// Options of LZMA1 or LZMA2.
    Lzma(LzmaRaw),
    /// Distance of the delta filter.
    Delta { dist: u32 },
    /// Start offset of a branch converter.
    Bcj { start_offset: u32 },
}

/// A filter of a chain: its ID and its options.
#[derive(Clone, Copy, Debug, PartialEq, Eq, Structural)]
pub struct Filter {
    /// Filter ID (`LZMA_VLI_UNKNOWN` ends a chain).
    pub id: u64,
    /// The options.
    pub options: FilterOptions,
}

/// The branch converters.
pub open spec fn is_bcj_id(id: u64) -> bool {
    id == LZMA_FILTER_X86 || id == LZMA_FILTER_POWERPC || id == LZMA_FILTER_IA64 || id
        == LZMA_FILTER_ARM || id == LZMA_FILTER_ARMTHUMB || id == LZMA_FILTER_ARM64 || id
        == LZMA_FILTER_SPARC || id == LZMA_FILTER_RISCV
}

/// The LZMA filters.
pub open spec fn is_lzma_id(id: u64) -> bool {
    id == LZMA_FILTER_LZMA1 || id == LZMA_FILTER_LZMA1EXT || id == LZMA_FILTER_LZMA2
}

/// The filters this library knows, for encoding as for decoding.
pub open spec fn is_known_id(id: u64) -> bool {
    is_lzma_id(id) || is_bcj_id(id) || id == LZMA_FILTER_DELTA
}

pub(crate) fn known_id(id: u64) -> (r: bool)
    ensures
        r == is_known_id(id),
{
    id == LZMA_FILTER_LZMA1 || id == LZMA_FILTER_LZMA1EXT || id == LZMA_FILTER_LZMA2 || id
        == LZMA_FILTER_X86 || id == LZMA_FILTER_POWERPC || id == LZMA_FILTER_IA64 || id
        == LZMA_FILTER_ARM || id == LZMA_FILTER_ARMTHUMB || id == LZMA_FILTER_ARM64 || id
        == LZMA_FILTER_SPARC || id == LZMA_FILTER_RISCV || id == LZMA_FILTER_DELTA
}

/// Tells whether filter `id` can be used for decoding.
pub fn lzma_filter_decoder_is_supported(id: u64) -> (r: bool)
    ensures
        r == is_known_id(id),
{
    known_id(id)
}

/// Tells whether filter `id` can be used for encoding.
pub fn lzma_filter_encoder_is_supported(id: u64) -> (r: bool)
    ensures
        r == is_known_id(id),
{
    known_id(id)
}

/// The filter may be followed by another filter.
pub open spec fn non_last_ok(id: u64) -> bool {
    is_bcj_id(id) || id == LZMA_FILTER_DELTA
}

/// The filter may end a chain.
pub open spec fn last_ok(id: u64) -> bool {
    is_lzma_id(id)
}

/// The filter may change the size of the data.
pub open spec fn changes_size(id: u64) -> bool {
    is_lzma_id(id)
}

/// What a filter may do in a chain.
#[allow(non_camel_case_types)]
#[derive(Clone, Copy, Debug, PartialEq, Eq, Structural)]
pub struct filter_features {
    /// Filter ID.
    pub id: u64,
    /// The filter may be followed by another filter.
    pub non_last_ok: bool,
    /// The filter may end a chain.
    pub last_ok: bool,
    /// The filter may change the size of the data.
    pub changes_size: bool,
}

/// Looks up what filter `id` may do in a chain; `None` for an unknown ID.
pub fn filter_features_of(id: u64) -> (r: Option<filter_features>)
    ensures
        match r {
            Some(f) => is_known_id(id) && f == (filter_features {
                id,
                non_last_ok: non_last_ok(id),
                last_ok: last_ok(id),
                changes_size: changes_size(id),
            }),
            None => !is_known_id(id),
        },
{
    if !known_id(id) {
        return None;
    }
    let lzma = id == LZMA_FILTER_LZMA1 || id == LZMA_FILTER_LZMA1EXT || id == LZMA_FILTER_LZMA2;
    Some(filter_features { id, non_last_ok: !lzma, last_ok: lzma, changes_size: lzma })
}

/// Number of filters before the end marker of `filters`.
pub open spec fn chain_len(filters: Seq<Filter>) -> nat
    decreases filters.len(),
{
    if filters.len() == 0 || filters[0].id == LZMA_VLI_UNKNOWN {
        0
    } else {
        1 + chain_len(filters.drop_first())
    }
}

/// Number of size-changing filters among the first `n` of `filters`.
pub open spec fn count_changes_size(filters: Seq<Filter>, n: nat) -> nat
    decreases n,
{
    if n == 0 {
        0
    } else {
        count_changes_size(filters, (n - 1) as nat) + if changes_size(filters[n - 1].id) {
            1nat
        } else {
            0nat
        }
    }
}

/// The first `n` filters of `filters` make a valid chain.
pub open spec fn chain_valid(filters: Seq<Filter>, n: nat) -> bool {
    &&& 1 <= n <= LZMA_FILTERS_MAX
    &&& forall|i: int| 0 <= i < n ==> is_known_id(#[trigger] filters[i].id)
    &&& forall|i: int| 0 <= i < n - 1 ==> non_last_ok(#[trigger] filters[i].id)
    &&& last_ok(filters[n - 1].id)
    &&& count_changes_size(filters, n) <= 3
}

/// The chain ends at the first end marker.
pub proof fn lemma_chain_len_exact(filters: Seq<Filter>, i: nat)
    requires
        i < filters.len(),
        filters[i as int].id == LZMA_VLI_UNKNOWN,
        forall|k: int| 0 <= k < i ==> filters[k].id != LZMA_VLI_UNKNOWN,
    ensures
        chain_len(filters) == i,
    decreases i,
{
    if i > 0 {
        let t = filters.drop_first();
        assert forall|k: int| 0 <= k < i - 1 implies t[k].id != LZMA_VLI_UNKNOWN by {
            assert(t[k] == filters[k + 1]);
        }
        lemma_chain_len_exact(t, (i - 1) as nat);
    }
}

/// Where the end marker of `filters` stands relative to position `i`.
pub proof fn lemma_chain_len(filters: Seq<Filter>, i: nat)
    requires
        i <= chain_len(filters),
        i < filters.len(),
        forall|k: int| 0 <= k < i ==> filters[k].id != LZMA_VLI_UNKNOWN,
    ensures
        (filters[i as int].id == LZMA_VLI_UNKNOWN) ==> chain_len(filters) == i,
        (filters[i as int].id != LZMA_VLI_UNKNOWN) ==> chain_len(filters) > i,
    decreases i,
{
    if i > 0 {
        lemma_chain_len(filters.drop_first(), (i - 1) as nat);
    }
}

/// Checks that `filters`, up to its end marker, is a chain that can be used:
/// `Ok(count)` with the number of filters, `Err(LZMA_PROG_ERROR)` for an empty
/// chain and `Err(LZMA_OPTIONS_ERROR)` for an invalid one.
pub fn lzma_validate_chain(filters: &[Filter]) -> (r: Result<usize, u32>)
    requires
        exists|i: int| 0 <= i < filters@.len() && filters@[i].id == LZMA_VLI_UNKNOWN,
    ensures
        match r {
            Ok(n) => n == chain_len(filters@) && chain_valid(filters@, n as nat),
            Err(e) => if chain_len(filters@) == 0 {
                e == LZMA_PROG_ERROR
            } else {
                e == LZMA_OPTIONS_ERROR && !chain_valid(filters@, chain_len(filters@))
            },
        },
{
    let ghost f = filters@;
    proof {
        lemma_chain_len(f, 0);
    }
    if filters[0].id == LZMA_VLI_UNKNOWN {
        return Err(LZMA_PROG_ERROR);
    }
    let mut changes: usize = 0;
    let mut prev_non_last_ok = true;
    let mut i: usize = 0;
    let mut ok = true;
    while filters[i].id != LZMA_VLI_UNKNOWN
        invariant
            i < filters@.len(),
            f == filters@,
            i <= chain_len(f),
            forall|k: int| 0 <= k < i ==> f[k].id != LZMA_VLI_UNKNOWN,
            exists|j: int| 0 <= j < f.len() && f[j].id == LZMA_VLI_UNKNOWN,
            changes == count_changes_size(f, i as nat),
            changes <= i,
            i > 0 ==> prev_non_last_ok == non_last_ok(f[i - 1].id),
            i == 0 ==> prev_non_last_ok,
            ok == ((forall|k: int| 0 <= k < i ==> is_known_id(#[trigger] f[k].id)) && (forall|
                k: int,
            | 0 <= k < i - 1 ==> non_last_ok(#[trigger] f[k].id))),
        decreases f.len() - i,
    {
        let id = filters[i].id;
        let known = known_id(id);
        if !known || !prev_non_last_ok {
            ok = false;
        }
        prev_non_last_ok = id == LZMA_FILTER_X86 || id == LZMA_FILTER_POWERPC || id
            == LZMA_FILTER_IA64 || id == LZMA_FILTER_ARM || id == LZMA_FILTER_ARMTHUMB || id
            == LZMA_FILTER_ARM64 || id == LZMA_FILTER_SPARC || id == LZMA_FILTER_RISCV || id
            == LZMA_FILTER_DELTA;
        if id == LZMA_FILTER_LZMA1 || id == LZMA_FILTER_LZMA1EXT || id == LZMA_FILTER_LZMA2 {
            changes = changes + 1;
        }
        i = i + 1;
        proof {
            lemma_chain_len(f, (i - 1) as nat);
            if i < f.len() {
                lemma_chain_len(f, i as nat);
            }
            assert(i < f.len()) by {
                let j = choose|j: int| 0 <= j < f.len() && f[j].id == LZMA_VLI_UNKNOWN;
                assert(j >= i);
            }
        }
    }
    proof {
        lemma_chain_len(f, i as nat);
    }
    let last = filters[i - 1].id;
    let last_is_ok = last == LZMA_FILTER_LZMA1 || last == LZMA_FILTER_LZMA1EXT || last
        == LZMA_FILTER_LZMA2;
    if !ok || i > LZMA_FILTERS_MAX || !last_is_ok || changes > 3 {
        return Err(LZMA_OPTIONS_ERROR);
    }
    Ok(i)
}

/// A filter with no ID and no options: the end marker of a chain.
pub open spec fn chain_end() -> Filter {
    Filter { id: LZMA_VLI_UNKNOWN, options: FilterOptions::Absent }
}

/// What copying the chain `src` from its filter `i` on gives: the number of
/// filters before the end marker, or `LZMA_OPTIONS_ERROR` for a fifth
/// filter or for options of a filter this library does not know.
pub open spec fn copy_from(src: Seq<Filter>, i: nat) -> Result<nat, u32>
    decreases 5 - i,
{
    if i >= 5 || i >= src.len() {
        Err(LZMA_OPTIONS_ERROR)
    } else if src[i as int].id == LZMA_VLI_UNKNOWN {
        Ok(i)
    } else if i == LZMA_FILTERS_MAX {
        Err(LZMA_OPTIONS_ERROR)
    } else if src[i as int].options != FilterOptions::Absent && !is_known_id(src[i as int].id) {
        Err(LZMA_OPTIONS_ERROR)
    } else {
        copy_from(src, i + 1)
    }
}

/// Copies the chain `src`, up to and with its end marker, to the start of
/// `dest`: `LZMA_OK` with the filters and their options copied (the entries
/// of `dest` after the end marker kept), or `LZMA_OPTIONS_ERROR` as
/// `copy_from` says, with `dest` unchanged.
pub fn lzma_filters_copy(src: &[Filter; 5], dest: &mut [Filter; 5]) -> (r: u32)
    ensures
        match copy_from(src@, 0) {
            Ok(n) => r == LZMA_OK && final(dest)@ == src@.take(n as int) + seq![chain_end()]
                + old(dest)@.skip((n + 1) as int),
            Err(e) => r == e && final(dest)@ == old(dest)@,
        },
{
    let mut i: usize = 0;
    while src[i].id != LZMA_VLI_UNKNOWN
        invariant
            i < 5,
            copy_from(src@, 0) == copy_from(src@, i as nat),
            forall|k: int| 0 <= k < i ==> src@[k].id != LZMA_VLI_UNKNOWN,
        decreases 5 - i,
    {
        if i == LZMA_FILTERS_MAX {
            return LZMA_OPTIONS_ERROR;
        }
        match src[i].options {
            FilterOptions::Absent => {},
            _ => {
                if !known_id(src[i].id) {
                    return LZMA_OPTIONS_ERROR;
                }
            },
        }
        i = i + 1;
    }
    let ghost d0 = dest@;
    let mut k: usize = 0;
    while k < i
        invariant
            k <= i < 5,
            dest@.len() == 5,
            forall|j: int| 0 <= j < k ==> dest@[j] == src@[j],
            forall|j: int| k <= j < 5 ==> dest@[j] == d0[j],
        decreases i - k,
    {
        dest[k] = src[k];
        k = k + 1;
    }
    dest[i] = Filter { id: LZMA_VLI_UNKNOWN, options: FilterOptions::Absent };
    assert(dest@ =~= src@.take(i as int) + seq![chain_end()] + d0.skip(i + 1));
    LZMA_OK
}

/// Frees the options of the chain `filters`: its filters before the end
/// marker, at most four, become end markers.
pub fn lzma_filters_free(filters: &mut [Filter; 5])
    ensures
        forall|k: int| 0 <= k < 5 ==> final(filters)@[k] == (if k < chain_len(old(filters)@)
            && k < LZMA_FILTERS_MAX {
            chain_end()
        } else {
            old(filters)@[k]
        }),
{
    let ghost f0 = filters@;
    let mut i: usize = 0;
    while i < LZMA_FILTERS_MAX && filters[i].id != LZMA_VLI_UNKNOWN
        invariant
            i <= 4,
            f0.len() == 5,
            i <= chain_len(f0),
            filters@.len() == 5,
            forall|k: int| 0 <= k < i ==> f0[k].id != LZMA_VLI_UNKNOWN,
            forall|k: int| 0 <= k < i ==> filters@[k] == chain_end(),
            forall|k: int| i <= k < 5 ==> filters@[k] == f0[k],
        decreases 4 - i,
    {
        proof {
            lemma_chain_len(f0, i as nat);
        }
        filters[i] = Filter { id: LZMA_VLI_UNKNOWN, options: FilterOptions::Absent };
        i = i + 1;
    }
    proof {
        if i < 4 {
            lemma_chain_len(f0, i as nat);
        }
    }
}

/// Dictionary size that the LZMA2 properties byte `p` stands for.
pub open spec fn lzma2_dict_size(p: u32) -> u32 {
    if p == 40 {
        u32::MAX
    } else {
        ((2u32 | (p & 1)) << (p / 2 + 11)) as u32
    }
}

/// The smallest properties byte from `p` on whose dictionary size is at least `d`.
pub open spec fn lzma2_props_from(d: u32, p: u32) -> u32
    decreases 40 - p,
{
    if p >= 40 || lzma2_dict_size(p) >= d {
        p
    } else {
        lzma2_props_from(d, (p + 1) as u32)
    }
}

/// The LZMA2 properties byte for dictionary size `d`: the smallest valid
/// dictionary size that is at least `d` and at least `LZMA_DICT_SIZE_MIN`.
pub open spec fn lzma2_props_byte(d: u32) -> u8 {
    lzma2_props_from(if d < LZMA_DICT_SIZE_MIN { LZMA_DICT_SIZE_MIN } else { d }, 0) as u8
}

/// The LZMA1 lc/lp/pb byte.
pub open spec fn lclppb_byte(o: LzmaRaw) -> u8 {
    ((o.pb * 5 + o.lp) * 9 + o.lc) as u8
}

/// lc, lp and pb are in range.
pub open spec fn lclppb_valid(o: LzmaRaw) -> bool {
    o.lc <= 4 && o.lp <= 4 && o.lc + o.lp <= LZMA_LCLP_MAX && o.pb <= LZMA_PB_MAX
}

/// The Filter Properties that the encoder writes for `f`, or the error code.
pub open spec fn props_encoding(f: Filter) -> Result<Seq<u8>, u32> {
    if !is_known_id(f.id) {
        Err(LZMA_PROG_ERROR)
    } else if f.id == LZMA_FILTER_LZMA1 || f.id == LZMA_FILTER_LZMA1EXT {
        match f.options {
            FilterOptions::Lzma(o) => if lclppb_valid(o) {
                Ok(seq![lclppb_byte(o)] + le32_bytes(o.dict_size))
            } else {
                Err(LZMA_PROG_ERROR)
            },
            _ => Err(LZMA_PROG_ERROR),
        }
    } else if f.id == LZMA_FILTER_LZMA2 {
        match f.options {
            FilterOptions::Lzma(o) => Ok(seq![lzma2_props_byte(o.dict_size)]),
            _ => Err(LZMA_PROG_ERROR),
        }
    } else if f.id == LZMA_FILTER_DELTA {
        match f.options {
            FilterOptions::Delta { dist } => if LZMA_DELTA_DIST_MIN <= dist
                <= LZMA_DELTA_DIST_MAX {
                Ok(seq![(dist - LZMA_DELTA_DIST_MIN) as u8])
            } else {
                Err(LZMA_PROG_ERROR)
            },
            _ => Err(LZMA_PROG_ERROR),
        }
    } else {
        match f.options {
            FilterOptions::Bcj { start_offset } => if start_offset == 0 {
                Ok(Seq::empty())
            } else {
                Ok(le32_bytes(start_offset))
            },
            FilterOptions::Absent => Ok(Seq::empty()),
            _ => Err(LZMA_PROG_ERROR),
        }
    }
}

/// The options that decoding the Filter Properties `props` of filter `id`
/// gives, or the error code.
pub open spec fn props_decoded(id: u64, props: Seq<u8>) -> Result<FilterOptions, u32> {
    if !is_known_id(id) {
        Err(LZMA_OPTIONS_ERROR)
    } else if id == LZMA_FILTER_LZMA1 || id == LZMA_FILTER_LZMA1EXT {
        if props.len() != 5 || props[0] > (4 * 5 + 4) * 9 + 8 {
            Err(LZMA_OPTIONS_ERROR)
        } else {
            let b = props[0];
            let pb = (b / 45) as u32;
            let lp = ((b % 45) / 9) as u32;
            let lc = (b % 9) as u32;
            if lc + lp > LZMA_LCLP_MAX {
                Err(LZMA_OPTIONS_ERROR)
            } else {
                Ok(
                    FilterOptions::Lzma(
                        LzmaRaw {
                            dict_size: le32_value(props[1], props[2], props[3], props[4]),
                            lc,
                            lp,
                            pb,
                            mode: 0,
                            nice_len: 0,
                            mf: 0,
                            depth: 0,
                        },
                    ),
                )
            }
        }
    } else if id == LZMA_FILTER_LZMA2 {
        if props.len() != 1 || props[0] & 0xc0 != 0 || props[0] > 40 {
            Err(LZMA_OPTIONS_ERROR)
        } else {
            Ok(
                FilterOptions::Lzma(
                    LzmaRaw {
                        dict_size: lzma2_dict_size(props[0] as u32),
                        lc: 0,
                        lp: 0,
                        pb: 0,
                        mode: 0,
                        nice_len: 0,
                        mf: 0,
                        depth: 0,
                    },
                ),
            )
        }
    } else if id == LZMA_FILTER_DELTA {
        if props.len() != 1 {
            Err(LZMA_OPTIONS_ERROR)
        } else {
            Ok(FilterOptions::Delta { dist: (props[0] + 1) as u32 })
        }
    } else {
        if props.len() == 0 {
            Ok(FilterOptions::Absent)
        } else if props.len() != 4 {
            Err(LZMA_OPTIONS_ERROR)
        } else {
            let start = le32_value(props[0], props[1], props[2], props[3]);
            if start == 0 {
                Ok(FilterOptions::Absent)
            } else {
                Ok(FilterOptions::Bcj { start_offset: start })
            }
        }
    }
}

/// Decodes the Filter Properties `props` of `filter.id` into `filter.options`.
///
/// Returns `LZMA_OPTIONS_ERROR` for an unknown filter or invalid properties;
/// the options are then absent.
pub fn lzma_properties_decode(filter: &mut Filter, props: &[u8]) -> (ret: u32)
    ensures
        final(filter).id == old(filter).id,
        match props_decoded(old(filter).id, props@) {
            Ok(o) => ret == LZMA_OK && final(filter).options == o,
            Err(e) => ret == e && final(filter).options == FilterOptions::Absent,
        },
{
    filter.options = FilterOptions::Absent;
    let id = filter.id;
    if !known_id(id) {
        return LZMA_OPTIONS_ERROR;
    }
    if id == LZMA_FILTER_LZMA1 || id == LZMA_FILTER_LZMA1EXT {
        if props.len() != 5 || props[0] > (4 * 5 + 4) * 9 + 8 {
            return LZMA_OPTIONS_ERROR;
        }
        let b = props[0];
        let pb = (b / 45) as u32;
        let lp = ((b % 45) / 9) as u32;
        let lc = (b % 9) as u32;
        if lc + lp > LZMA_LCLP_MAX {
            return LZMA_OPTIONS_ERROR;
        }
        let dict_size = read32le(props[1], props[2], props[3], props[4]);
        filter.options = FilterOptions::Lzma(
            LzmaRaw { dict_size, lc, lp, pb, mode: 0, nice_len: 0, mf: 0, depth: 0 },
        );
        LZMA_OK
    } else if id == LZMA_FILTER_LZMA2 {
        if props.len() != 1 || props[0] & 0xc0 != 0 || props[0] > 40 {
            return LZMA_OPTIONS_ERROR;
        }
        let p = props[0] as u32;
        let dict_size = if p == 40 {
            u32::MAX
        } else {
            (2u32 | (p & 1)) << (p / 2 + 11)
        };
        filter.options = FilterOptions::Lzma(
            LzmaRaw { dict_size, lc: 0, lp: 0, pb: 0, mode: 0, nice_len: 0, mf: 0, depth: 0 },
        );
        LZMA_OK
    } else if id == LZMA_FILTER_DELTA {
        if props.len() != 1 {
            return LZMA_OPTIONS_ERROR;
        }
        filter.options = FilterOptions::Delta { dist: props[0] as u32 + 1 };
        LZMA_OK
    } else {
        if props.len() == 0 {
            return LZMA_OK;
        }
        if props.len() != 4 {
            return LZMA_OPTIONS_ERROR;
        }
        let start = read32le(props[0], props[1], props[2], props[3]);
        if start != 0 {
            filter.options = FilterOptions::Bcj { start_offset: start };
        }
        LZMA_OK
    }
}

/// Size of the Filter Properties of `filter`, as `lzma_properties_encode`
/// writes them. Returns `LZMA_OPTIONS_ERROR` for an unknown filter ID and
/// `LZMA_PROG_ERROR` for an ID above `LZMA_VLI_MAX`.
pub fn lzma_properties_size(size: &mut u32, filter: &Filter) -> (ret: u32)
    ensures
        !is_known_id(filter.id) ==> *final(size) == *old(size) && ret == (if filter.id
            <= LZMA_VLI_MAX {
            LZMA_OPTIONS_ERROR
        } else {
            LZMA_PROG_ERROR
        }),
        is_known_id(filter.id) ==> ret == LZMA_OK && *final(size) == (if is_lzma_id(filter.id) {
            if filter.id == LZMA_FILTER_LZMA2 {
                1u32
            } else {
                5u32
            }
        } else if filter.id == LZMA_FILTER_DELTA {
            1u32
        } else {
            match filter.options {
                FilterOptions::Bcj { start_offset } => if start_offset == 0 {
                    0u32
                } else {
                    4u32
                },
                _ => 0u32,
            }
        }),
        is_known_id(filter.id) ==> (props_encoding(*filter) matches Ok(p) ==> p.len()
            == *final(size)),
{
    let id = filter.id;
    if !known_id(id) {
        return if id <= LZMA_VLI_MAX {
            LZMA_OPTIONS_ERROR
        } else {
            LZMA_PROG_ERROR
        };
    }
    if id == LZMA_FILTER_LZMA1 || id == LZMA_FILTER_LZMA1EXT {
        *size = 5;
    } else if id == LZMA_FILTER_LZMA2 || id == LZMA_FILTER_DELTA {
        *size = 1;
    } else {
        *size = match filter.options {
            FilterOptions::Bcj { start_offset } => if start_offset == 0 {
                0
            } else {
                4
            },
            _ => 0,
        };
    }
    LZMA_OK
}

proof fn lemma_lzma2_dict_size_grows(p: u32)
    requires
        p < 40,
    ensures
        lzma2_dict_size(p) < lzma2_dict_size((p + 1) as u32),
        lzma2_dict_size(0) == LZMA_DICT_SIZE_MIN,
{
    let q = (p + 1) as u32;
    assert(p < 39 && q == p + 1 ==> ((2u32 | (p & 1)) << (p / 2 + 11)) < ((2u32 | (q & 1)) << (q
        / 2 + 11))) by (bit_vector);
    assert((p == 39 ==> ((2u32 | (p & 1)) << (p / 2 + 11)) < 0xffff_ffffu32) && ((2u32 | (0u32
        & 1)) << (0u32 / 2 + 11)) == 4096u32) by (bit_vector);
}

fn lzma2_props_encode_byte(dict_size: u32) -> (r: u8)
    ensures
        r == lzma2_props_byte(dict_size),
{
    let d = if dict_size < LZMA_DICT_SIZE_MIN {
        LZMA_DICT_SIZE_MIN
    } else {
        dict_size
    };
    let mut p: u32 = 0;
    while p < 40
        invariant
            p <= 40,
            d == (if dict_size < LZMA_DICT_SIZE_MIN {
                LZMA_DICT_SIZE_MIN
            } else {
                dict_size
            }),
            lzma2_props_from(d, 0) == lzma2_props_from(d, p),
        decreases 40 - p,
    {
        let size = if p == 40 {
            u32::MAX
        } else {
            (2u32 | (p & 1)) << (p / 2 + 11)
        };
        assert(size == lzma2_dict_size(p));
        if size >= d {
            assert(lzma2_props_from(d, p) == p);
            assert(lzma2_props_byte(dict_size) == p as u8);
            return p as u8;
        }
        p = p + 1;
    }
    40
}

/// Writes the Filter Properties of `filter` into `props`, which must be as
/// long as `lzma_properties_size` says. Returns `LZMA_PROG_ERROR` for an
/// unknown filter or invalid options.
pub fn lzma_properties_encode(filter: &Filter, props: &mut [u8]) -> (ret: u32)
    requires
        props_encoding(*filter) matches Ok(p) ==> old(props)@.len() == p.len(),
    ensures
        final(props)@.len() == old(props)@.len(),
        match props_encoding(*filter) {
            Ok(p) => ret == LZMA_OK && final(props)@ == p,
            Err(e) => ret == e,
        },
{
    let id = filter.id;
    if !known_id(id) {
        return LZMA_PROG_ERROR;
    }
    if id == LZMA_FILTER_LZMA1 || id == LZMA_FILTER_LZMA1EXT {
        match filter.options {
            FilterOptions::Lzma(o) => {
                if !(o.lc <= 4 && o.lp <= 4 && o.lc + o.lp <= LZMA_LCLP_MAX && o.pb
                    <= LZMA_PB_MAX) {
                    return LZMA_PROG_ERROR;
                }
                props[0] = ((o.pb * 5 + o.lp) * 9 + o.lc) as u8;
                let b = write32le(o.dict_size);
                props[1] = b[0];
                props[2] = b[1];
                props[3] = b[2];
                props[4] = b[3];
                assert(props@ =~= seq![lclppb_byte(o)] + le32_bytes(o.dict_size));
                LZMA_OK
            },
            _ => LZMA_PROG_ERROR,
        }
    } else if id == LZMA_FILTER_LZMA2 {
        match filter.options {
            FilterOptions::Lzma(o) => {
                props[0] = lzma2_props_encode_byte(o.dict_size);
                assert(props@ =~= seq![lzma2_props_byte(o.dict_size)]);
                LZMA_OK
            },
            _ => LZMA_PROG_ERROR,
        }
    } else if id == LZMA_FILTER_DELTA {
        match filter.options {
            FilterOptions::Delta { dist } => {
                if !(LZMA_DELTA_DIST_MIN <= dist && dist <= LZMA_DELTA_DIST_MAX) {
                    return LZMA_PROG_ERROR;
                }
                props[0] = (dist - LZMA_DELTA_DIST_MIN) as u8;
                assert(props@ =~= seq![(dist - LZMA_DELTA_DIST_MIN) as u8]);
                LZMA_OK
            },
            _ => LZMA_PROG_ERROR,
        }
    } else {
        match filter.options {
            FilterOptions::Bcj { start_offset } => {
                if start_offset == 0 {
                    assert(props@ =~= Seq::<u8>::empty());
                    return LZMA_OK;
                }
                let b = write32le(start_offset);
                props[0] = b[0];
                props[1] = b[1];
                props[2] = b[2];
                props[3] = b[3];
                assert(props@ =~= le32_bytes(start_offset));
                LZMA_OK
            },
            FilterOptions::Absent => {
                assert(props@ =~= Seq::<u8>::empty());
                LZMA_OK
            },
            _ => LZMA_PROG_ERROR,
        }
    }
}

/// What the options of `f` come back as once its Filter Properties are
/// written and read again: the LZMA1 lc, lp, pb and dictionary size; the
/// LZMA2 dictionary size rounded up to one that the properties byte can
/// express; the delta distance; a branch converter's nonzero start offset.
/// Everything else is left at zero or absent.
pub open spec fn props_canonical(f: Filter) -> FilterOptions {
    if f.id == LZMA_FILTER_LZMA1 || f.id == LZMA_FILTER_LZMA1EXT {
        match f.options {
            FilterOptions::Lzma(o) => FilterOptions::Lzma(
                LzmaRaw {
                    dict_size: o.dict_size,
                    lc: o.lc,
                    lp: o.lp,
                    pb: o.pb,
                    mode: 0,
                    nice_len: 0,
                    mf: 0,
                    depth: 0,
                },
            ),
            _ => f.options,
        }
    } else if f.id == LZMA_FILTER_LZMA2 {
        match f.options {
            FilterOptions::Lzma(o) => FilterOptions::Lzma(
                LzmaRaw {
                    dict_size: lzma2_dict_size(lzma2_props_byte(o.dict_size) as u32),
                    lc: 0,
                    lp: 0,
                    pb: 0,
                    mode: 0,
                    nice_len: 0,
                    mf: 0,
                    depth: 0,
                },
            ),
            _ => f.options,
        }
    } else {
        match f.options {
            FilterOptions::Bcj { start_offset } => if start_offset == 0 {
                FilterOptions::Absent
            } else {
                f.options
            },
            _ => f.options,
        }
    }
}

proof fn lemma_lzma2_props_from_bound(d: u32, p: u32)
    requires
        p <= 40,
    ensures
        lzma2_props_from(d, p) <= 40,
    decreases 40 - p,
{
    if !(p >= 40 || lzma2_dict_size(p) >= d) {
        lemma_lzma2_props_from_bound(d, (p + 1) as u32);
    }
}

/// Reading back the Filter Properties written for a filter gives its
/// options as `props_canonical` describes them.
pub proof fn law_properties_roundtrip(f: Filter)
    requires
        props_encoding(f) is Ok,
    ensures
        props_decoded(f.id, props_encoding(f)->Ok_0) == Ok::<FilterOptions, u32>(props_canonical(f)),
{
    let p = props_encoding(f)->Ok_0;
    if f.id == LZMA_FILTER_LZMA1 || f.id == LZMA_FILTER_LZMA1EXT {
        let o = f.options->Lzma_0;
        lemma_le32_roundtrip(o.dict_size);
        let b = (o.pb * 5 + o.lp) * 9 + o.lc;
        assert(b <= 224 && b / 45 == o.pb && (b % 45) / 9 == o.lp && b % 9 == o.lc)
            by (nonlinear_arith)
            requires
                b == (o.pb * 5 + o.lp) * 9 + o.lc,
                o.lc <= 4,
                o.lp <= 4,
                o.lc + o.lp <= 4,
                o.pb <= 4,
        ;
        assert(p[0] == lclppb_byte(o));
        assert(p[0] as int == b);
        assert(p.subrange(1, 5) =~= le32_bytes(o.dict_size));
    } else if f.id == LZMA_FILTER_LZMA2 {
        let o = f.options->Lzma_0;
        let d = if o.dict_size < LZMA_DICT_SIZE_MIN {
            LZMA_DICT_SIZE_MIN
        } else {
            o.dict_size
        };
        lemma_lzma2_props_from_bound(d, 0);
        let b = lzma2_props_byte(o.dict_size);
        assert(b <= 40 ==> b & 0xc0 == 0) by (bit_vector);
    } else if f.id == LZMA_FILTER_DELTA {
    } else {
        match f.options {
            FilterOptions::Bcj { start_offset } => if start_offset != 0 {
                lemma_le32_roundtrip(start_offset);
            },
            _ => {},
        }
    }
}

} // verus!
