//! Compression presets, the multithreaded Block size and the version of the
//! library.
use vstd::prelude::*;
use crate::filter::{
    chain_len, is_known_id, known_id, lemma_chain_len, Filter, FilterOptions, LzmaRaw,
    LZMA_DICT_SIZE_MIN, LZMA_MF_BT4, LZMA_MF_HC3, LZMA_MF_HC4, LZMA_MODE_FAST,
    LZMA_MODE_NORMAL,
};
use crate::types::{
    LZMA_FILTER_LZMA2, LZMA_PRESET_EXTREME, LZMA_PRESET_LEVEL_MASK, LZMA_VLI_UNKNOWN,
};

verus! {

/// Major version of the implemented liblzma interface.
pub const LZMA_VERSION_MAJOR: u32 = 5;
/// Minor version of the implemented liblzma interface.
pub const LZMA_VERSION_MINOR: u32 = 8;
/// Patch level of the implemented liblzma interface.
pub const LZMA_VERSION_PATCH: u32 = 3;
/// Stability code of a stable release.
pub const LZMA_VERSION_STABILITY_STABLE: u32 = 2;

/// Returns the version as the number `major * 10000000 + minor * 10000 +
/// patch * 10 + stability`.
pub fn lzma_version_number() -> (r: u32)
    ensures
        r == LZMA_VERSION_MAJOR * 10000000 + LZMA_VERSION_MINOR * 10000 + LZMA_VERSION_PATCH * 10
            + LZMA_VERSION_STABILITY_STABLE,
{
    LZMA_VERSION_MAJOR * 10000000 + LZMA_VERSION_MINOR * 10000 + LZMA_VERSION_PATCH * 10
        + LZMA_VERSION_STABILITY_STABLE
}

/// Returns the version as a string.
pub fn lzma_version_string() -> (r: &'static str)
    ensures
        r@ == "5.8.3"@,
{
    "5.8.3"
}

/// Dictionary size, as a power of two, of each preset level.
pub open spec fn preset_dict_pow2(level: u32) -> u32 {
    if level == 0 {
        18
    } else if level == 1 {
        20
    } else if level == 2 {
        21
    } else if level <= 4 {
        22
    } else if level <= 6 {
        23
    } else if level == 7 {
        24
    } else if level == 8 {
        25
    } else {
        26
    }
}

/// The LZMA options of `preset`, or `None` for a level above 9 or an unknown
/// flag.
pub open spec fn preset_options(preset: u32) -> Option<LzmaRaw> {
    let level = preset & LZMA_PRESET_LEVEL_MASK;
    let flags = preset & !LZMA_PRESET_LEVEL_MASK;
    if level > 9 || flags & !LZMA_PRESET_EXTREME != 0 {
        None
    } else {
        let dict_size = (1u32 << preset_dict_pow2(level)) as u32;
        let base = if level <= 3 {
            LzmaRaw {
                dict_size,
                lc: 3,
                lp: 0,
                pb: 2,
                mode: LZMA_MODE_FAST,
                nice_len: if level <= 1 {
                    128
                } else {
                    273
                },
                mf: if level == 0 {
                    LZMA_MF_HC3
                } else {
                    LZMA_MF_HC4
                },
                depth: if level == 0 {
                    4
                } else if level == 1 {
                    8
                } else if level == 2 {
                    24
                } else {
                    48
                },
            }
        } else {
            LzmaRaw {
                dict_size,
                lc: 3,
                lp: 0,
                pb: 2,
                mode: LZMA_MODE_NORMAL,
                nice_len: if level == 4 {
                    16
                } else if level == 5 {
                    32
                } else {
                    64
                },
                mf: LZMA_MF_BT4,
                depth: 0,
            }
        };
        if flags & LZMA_PRESET_EXTREME != 0 {
            Some(
                LzmaRaw {
                    mode: LZMA_MODE_NORMAL,
                    mf: LZMA_MF_BT4,
                    nice_len: if level == 3 || level == 5 {
                        192
                    } else {
                        273
                    },
                    depth: if level == 3 || level == 5 {
                        0
                    } else {
                        512
                    },
                    ..base
                },
            )
        } else {
            Some(base)
        }
    }
}

/// `1 << k` is the `k`-th power of two.
proof fn lemma_one_shl(k: u32)
    requires
        k < 32,
    ensures
        (1u32 << k) == vstd::arithmetic::power2::pow2(k as nat),
{
    vstd::bits::lemma_u32_pow2_no_overflow(k as nat);
    vstd::bits::lemma_u32_shl_is_mul(1, k);
}

/// The dictionary size of a preset, which its level alone decides.
proof fn lemma_preset_dict(preset: u32)
    requires
        preset_options(preset) is Some,
    ensures
        ({
            let level = preset & LZMA_PRESET_LEVEL_MASK;
            let d = preset_options(preset)->Some_0.dict_size;
            &&& level <= 9
            &&& level == 0 ==> d == 0x4_0000
            &&& level == 1 ==> d == 0x10_0000
            &&& level == 2 ==> d == 0x20_0000
            &&& (level == 3 || level == 4) ==> d == 0x40_0000
            &&& (level == 5 || level == 6) ==> d == 0x80_0000
            &&& level == 7 ==> d == 0x100_0000
            &&& level == 8 ==> d == 0x200_0000
            &&& level == 9 ==> d == 0x400_0000
        }),
{
    let level = preset & LZMA_PRESET_LEVEL_MASK;
    vstd::arithmetic::power2::lemma2_to64();
    lemma_one_shl(preset_dict_pow2(level));
}

/// The dictionary size of every preset, extreme or not, is the one of its
/// level: 256 KiB, 1 MiB, 2 MiB, 4 MiB, 4 MiB, 8 MiB, 8 MiB, 16 MiB, 32 MiB
/// and 64 MiB for levels 0 to 9.
pub proof fn law_preset_dict_size(preset: u32)
    requires
        preset_options(preset) is Some,
    ensures
        ({
            let level = preset & LZMA_PRESET_LEVEL_MASK;
            let d = preset_options(preset)->Some_0.dict_size;
            &&& level == 0 ==> d == 256 * 1024
            &&& level == 1 ==> d == 1024 * 1024
            &&& level == 2 ==> d == 2 * 1024 * 1024
            &&& (level == 3 || level == 4) ==> d == 4 * 1024 * 1024
            &&& (level == 5 || level == 6) ==> d == 8 * 1024 * 1024
            &&& level == 7 ==> d == 16 * 1024 * 1024
            &&& level == 8 ==> d == 32 * 1024 * 1024
            &&& level == 9 ==> d == 64 * 1024 * 1024
        }),
{
    lemma_preset_dict(preset);
}

/// A preset of a higher level never has a smaller dictionary, and each of
/// the levels 2, 3, 5, 7, 8 and 9 doubles the dictionary of the level
/// below it.
pub proof fn law_preset_dict_grows(p1: u32, p2: u32)
    requires
        preset_options(p1) is Some,
        preset_options(p2) is Some,
    ensures
        ({
            let l1 = p1 & LZMA_PRESET_LEVEL_MASK;
            let l2 = p2 & LZMA_PRESET_LEVEL_MASK;
            let d1 = preset_options(p1)->Some_0.dict_size;
            let d2 = preset_options(p2)->Some_0.dict_size;
            &&& l1 <= l2 ==> d1 <= d2
            &&& l2 == l1 + 1 && l2 != 1 && l2 != 4 && l2 != 6 ==> d2 == 2 * d1
        }),
{
    lemma_preset_dict(p1);
    lemma_preset_dict(p2);
    let l1 = p1 & LZMA_PRESET_LEVEL_MASK;
    let l2 = p2 & LZMA_PRESET_LEVEL_MASK;
    let e1 = preset_dict_pow2(l1);
    let e2 = preset_dict_pow2(l2);
    assert(l1 <= l2 ==> e1 <= e2);
    assert(l2 == l1 + 1 && l2 != 1 && l2 != 4 && l2 != 6 ==> e2 == e1 + 1);
    lemma_one_shl(e1);
    lemma_one_shl(e2);
    if e1 < e2 {
        vstd::arithmetic::power2::lemma_pow2_strictly_increases(e1 as nat, e2 as nat);
    }
    if l2 == l1 + 1 && l2 != 1 && l2 != 4 && l2 != 6 {
        vstd::arithmetic::power2::lemma_pow2_adds(e1 as nat, 1);
        vstd::arithmetic::power2::lemma2_to64();
    }
}

/// Fills `options` from the compression preset `preset`: a level 0-9,
/// possibly with `LZMA_PRESET_EXTREME`. Returns true, leaving `options` as it
/// was, for an unsupported preset.
pub fn lzma_lzma_preset(options: &mut LzmaRaw, preset: u32) -> (bad: bool)
    ensures
        match preset_options(preset) {
            Some(o) => !bad && *final(options) == o,
            None => bad && *final(options) == *old(options),
        },
{
    let level = preset & LZMA_PRESET_LEVEL_MASK;
    let flags = preset & !LZMA_PRESET_LEVEL_MASK;
    if level > 9 || flags & !LZMA_PRESET_EXTREME != 0 {
        return true;
    }
    let pow2: [u32; 10] = [18, 20, 21, 22, 22, 23, 23, 24, 25, 26];
    let p = pow2[level as usize];
    assert(p == preset_dict_pow2(level));
    let dict_size = 1u32 << p;
    let mut o = if level <= 3 {
        let depths: [u32; 4] = [4, 8, 24, 48];
        LzmaRaw {
            dict_size,
            lc: 3,
            lp: 0,
            pb: 2,
            mode: LZMA_MODE_FAST,
            nice_len: if level <= 1 {
                128
            } else {
                273
            },
            mf: if level == 0 {
                LZMA_MF_HC3
            } else {
                LZMA_MF_HC4
            },
            depth: depths[level as usize],
        }
    } else {
        LzmaRaw {
            dict_size,
            lc: 3,
            lp: 0,
            pb: 2,
            mode: LZMA_MODE_NORMAL,
            nice_len: if level == 4 {
                16
            } else if level == 5 {
                32
            } else {
                64
            },
            mf: LZMA_MF_BT4,
            depth: 0,
        }
    };
    if flags & LZMA_PRESET_EXTREME != 0 {
        o.mode = LZMA_MODE_NORMAL;
        o.mf = LZMA_MF_BT4;
        if level == 3 || level == 5 {
            o.nice_len = 192;
            o.depth = 0;
        } else {
            o.nice_len = 273;
            o.depth = 512;
        }
    }
    *options = o;
    false
}

/// Options of the `easy` encoders: one LZMA2 filter with options from a
/// preset.
#[derive(Clone, Copy, Debug)]
pub struct OptionsEasy {
    /// The filter chain, ended by an `LZMA_VLI_UNKNOWN` ID.
    pub filters: [Filter; 5],
    /// The LZMA2 options.
    pub opt_lzma: LzmaRaw,
}

/// Fills `opt_easy` from `preset`: the LZMA2 options of the preset and a
/// filter chain of LZMA2 alone. Returns true, leaving `opt_easy` as it was,
/// for an unsupported preset.
pub fn lzma_easy_preset(opt_easy: &mut OptionsEasy, preset: u32) -> (bad: bool)
    ensures
        match preset_options(preset) {
            Some(o) => {
                &&& !bad
                &&& final(opt_easy).opt_lzma == o
                &&& final(opt_easy).filters@[0] == (Filter {
                    id: LZMA_FILTER_LZMA2,
                    options: FilterOptions::Lzma(o),
                })
                &&& final(opt_easy).filters@[1].id == LZMA_VLI_UNKNOWN
                &&& forall|i: int| 2 <= i < 5 ==> final(opt_easy).filters@[i] == old(
                    opt_easy,
                ).filters@[i]
            },
            None => bad && final(opt_easy).opt_lzma == old(opt_easy).opt_lzma
                && final(opt_easy).filters@ == old(opt_easy).filters@,
        },
{
    if lzma_lzma_preset(&mut opt_easy.opt_lzma, preset) {
        return true;
    }
    opt_easy.filters[0] = Filter {
        id: LZMA_FILTER_LZMA2,
        options: FilterOptions::Lzma(opt_easy.opt_lzma),
    };
    opt_easy.filters[1] = Filter { id: LZMA_VLI_UNKNOWN, options: FilterOptions::Absent };
    false
}

/// Largest dictionary size that the LZMA2 encoder accepts.
pub const LZMA_ENC_DICT_SIZE_MAX: u32 = 0x6000_0000;

/// The Block size that the multithreaded encoder picks for a filter: for
/// LZMA2, three times the dictionary size but at least 1 MiB, or `u64::MAX`
/// for a dictionary size that the encoder refuses; 0 for the others.
pub open spec fn filter_block_size(f: Filter) -> u64 {
    if f.id == LZMA_FILTER_LZMA2 {
        match f.options {
            FilterOptions::Lzma(o) => if o.dict_size < LZMA_DICT_SIZE_MIN || o.dict_size
                > LZMA_ENC_DICT_SIZE_MAX {
                u64::MAX
            } else if 3 * o.dict_size > 0x10_0000 {
                (3 * o.dict_size) as u64
            } else {
                0x10_0000
            },
            _ => 0,
        }
    } else {
        0
    }
}

/// Largest Block size that the first `n` filters of `filters` ask for.
pub open spec fn block_size_max(filters: Seq<Filter>, n: nat) -> u64
    decreases n,
{
    if n == 0 {
        0
    } else {
        let m = block_size_max(filters, (n - 1) as nat);
        let s = filter_block_size(filters[n - 1]);
        if s > m {
            s
        } else {
            m
        }
    }
}

/// The Block size recommended for the chain `filters`: `u64::MAX` when a
/// filter of the chain is unknown or no filter asks for a size, else the
/// largest size that a filter asks for.
pub open spec fn mt_block_size_of(filters: Seq<Filter>) -> u64 {
    let n = chain_len(filters);
    if exists|i: int| 0 <= i < n && !is_known_id(#[trigger] filters[i].id) {
        u64::MAX
    } else if block_size_max(filters, n) == 0 {
        u64::MAX
    } else {
        block_size_max(filters, n)
    }
}

/// Every LZMA2 filter of the chain carries LZMA options.
pub open spec fn lzma2_options_present(filters: Seq<Filter>) -> bool {
    forall|i: int|
        0 <= i < chain_len(filters) && #[trigger] filters[i].id == LZMA_FILTER_LZMA2
            ==> filters[i].options is Lzma
}

fn filter_block_size_of(f: &Filter) -> (r: u64)
    requires
        f.id == LZMA_FILTER_LZMA2 ==> f.options is Lzma,
    ensures
        r == filter_block_size(*f),
{
    if f.id == LZMA_FILTER_LZMA2 {
        match f.options {
            FilterOptions::Lzma(o) => {
                if o.dict_size < LZMA_DICT_SIZE_MIN || o.dict_size > LZMA_ENC_DICT_SIZE_MAX {
                    u64::MAX
                } else if 3 * (o.dict_size as u64) > 0x10_0000 {
                    3 * (o.dict_size as u64)
                } else {
                    0x10_0000
                }
            },
            _ => 0,
        }
    } else {
        0
    }
}

/// Recommends a Block size for multithreaded encoding with the chain
/// `filters`, which ends with an `LZMA_VLI_UNKNOWN` ID.
pub fn lzma_mt_block_size(filters: &[Filter]) -> (r: u64)
    requires
        exists|i: int| 0 <= i < filters@.len() && filters@[i].id == LZMA_VLI_UNKNOWN,
        lzma2_options_present(filters@),
    ensures
        r == mt_block_size_of(filters@),
{
    let ghost f = filters@;
    let mut max: u64 = 0;
    let mut i: usize = 0;
    proof {
        lemma_chain_len(f, 0);
    }
    while filters[i].id != LZMA_VLI_UNKNOWN
        invariant
            i < f.len(),
            f == filters@,
            i <= chain_len(f),
            forall|k: int| 0 <= k < i ==> f[k].id != LZMA_VLI_UNKNOWN,
            forall|k: int| 0 <= k < i ==> is_known_id(#[trigger] f[k].id),
            exists|j: int| 0 <= j < f.len() && f[j].id == LZMA_VLI_UNKNOWN,
            lzma2_options_present(f),
            max == block_size_max(f, i as nat),
        decreases f.len() - i,
    {
        if !known_id(filters[i].id) {
            proof {
                lemma_chain_len(f, i as nat);
                assert(!is_known_id(f[i as int].id));
            }
            return u64::MAX;
        }
        proof {
            lemma_chain_len(f, i as nat);
        }
        let size = filter_block_size_of(&filters[i]);
        if size > max {
            max = size;
        }
        i = i + 1;
        proof {
            if i < f.len() {
                lemma_chain_len(f, i as nat);
            }
            assert(i < f.len()) by {
                let j = choose|j: int| 0 <= j < f.len() && f[j].id == LZMA_VLI_UNKNOWN;
                assert(j >= i);
            }
        }
    }
    proof {
        lemma_chain_len(f, i as nat);
    }
    if max == 0 {
        u64::MAX
    } else {
        max
    }
}

} // verus!
