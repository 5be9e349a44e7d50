use xz::filter::{
    Filter, FilterOptions, LzmaRaw, LZMA_MF_BT4, LZMA_MF_HC4, LZMA_MODE_FAST, LZMA_MODE_NORMAL,
};
use xz::string_conversion::{
    lzma_str_to_filters, StrError, LZMA_STR_ALL_FILTERS, LZMA_STR_NO_VALIDATION,
};
use xz::types::{
    LZMA_FILTER_DELTA, LZMA_FILTER_LZMA1, LZMA_FILTER_LZMA2, LZMA_FILTER_X86, LZMA_VLI_UNKNOWN,
};

fn end() -> Filter {
    Filter { id: LZMA_VLI_UNKNOWN, options: FilterOptions::Absent }
}

fn parse(s: &str, flags: u32) -> (Option<StrError>, i32, [Filter; 5]) {
    let mut filters = [end(); 5];
    let mut error_pos: i32 = -1;
    let r = lzma_str_to_filters(s.as_bytes(), &mut error_pos, &mut filters, flags);
    (r, error_pos, filters)
}

fn lzma(f: &Filter) -> LzmaRaw {
    match f.options {
        FilterOptions::Lzma(r) => r,
        _ => panic!("not LZMA options"),
    }
}

#[test]
fn lzma12_options_parse_into_correct_fields() {
    let (msg, _, filters) =
        parse("lzma2:dict=1MiB,lc=2,lp=1,pb=3,mode=fast,nice=100,mf=hc4,depth=7", 0);
    assert!(msg.is_none());
    assert_eq!(filters[0].id, LZMA_FILTER_LZMA2);
    assert_eq!(filters[1].id, LZMA_VLI_UNKNOWN);
    let opts = lzma(&filters[0]);
    assert_eq!(opts.dict_size, 1 << 20);
    assert_eq!(opts.lc, 2);
    assert_eq!(opts.lp, 1);
    assert_eq!(opts.pb, 3);
    assert_eq!(opts.mode, LZMA_MODE_FAST);
    assert_eq!(opts.nice_len, 100);
    assert_eq!(opts.mf, LZMA_MF_HC4);
    assert_eq!(opts.depth, 7);
}

#[test]
fn str_preset_alone() {
    let (msg, pos, filters) = parse("6", 0);
    assert!(msg.is_none());
    assert_eq!(pos, 1);
    assert_eq!(filters[0].id, LZMA_FILTER_LZMA2);
    assert_eq!(lzma(&filters[0]).dict_size, 1 << 23);
    assert_eq!(filters[1].id, LZMA_VLI_UNKNOWN);

    let (msg, pos, filters) = parse("  -9e  ", 0);
    assert!(msg.is_none());
    assert_eq!(pos, 5);
    let o = lzma(&filters[0]);
    assert_eq!(o.dict_size, 1 << 26);
    assert_eq!(o.nice_len, 273);
    assert_eq!(o.depth, 512);
    assert_eq!(o.mode, LZMA_MODE_NORMAL);
}

#[test]
fn str_preset_errors() {
    let (msg, pos, _) = parse("6 x", 0);
    assert_eq!(msg, Some(StrError::UnsupportedPreset));
    assert_eq!(pos, 0);
    let (msg, pos, _) = parse("7f", 0);
    assert_eq!(msg, Some(StrError::UnsupportedPresetFlag));
    assert_eq!(pos, 1);
    let (msg, pos, _) = parse("   ", 0);
    assert_eq!(msg, Some(StrError::Empty));
    assert_eq!(pos, 3);
    let (msg, pos, _) = parse("", 0);
    assert_eq!(msg, Some(StrError::Empty));
    assert_eq!(pos, 0);
}

#[test]
fn str_chain_of_filters() {
    let (msg, pos, filters) = parse("x86:start=4KiB --delta:dist=4 lzma2:preset=1,nice=50", 0);
    assert!(msg.is_none());
    assert_eq!(pos, 52);
    assert_eq!(filters[0], Filter { id: LZMA_FILTER_X86, options: FilterOptions::Bcj { start_offset: 4096 } });
    assert_eq!(filters[1], Filter { id: LZMA_FILTER_DELTA, options: FilterOptions::Delta { dist: 4 } });
    assert_eq!(filters[2].id, LZMA_FILTER_LZMA2);
    let o = lzma(&filters[2]);
    assert_eq!(o.dict_size, 1 << 20);
    assert_eq!(o.nice_len, 50);
    assert_eq!(filters[3].id, LZMA_VLI_UNKNOWN);

    let (msg, _, filters) = parse("--x86 --lzma2", 0);
    assert!(msg.is_none());
    assert_eq!(filters[0], Filter { id: LZMA_FILTER_X86, options: FilterOptions::Bcj { start_offset: 0 } });
    let o = lzma(&filters[1]);
    assert_eq!(o.mf, LZMA_MF_BT4);
    assert_eq!(o.dict_size, 1 << 23);
}

#[test]
fn str_only_xz_filters_by_default() {
    let (msg, pos, _) = parse("lzma1", 0);
    assert_eq!(msg, Some(StrError::NotForXz));
    assert_eq!(pos, 0);
    let (msg, _, filters) = parse("lzma1", LZMA_STR_ALL_FILTERS);
    assert!(msg.is_none());
    assert_eq!(filters[0].id, LZMA_FILTER_LZMA1);
}

#[test]
fn str_validation() {
    let (msg, pos, filters) = parse("x86", 0);
    assert_eq!(msg, Some(StrError::InvalidChain));
    assert_eq!(pos, 3);
    assert_eq!(filters[0], end());
    let (msg, _, filters) = parse("x86", LZMA_STR_NO_VALIDATION);
    assert!(msg.is_none());
    assert_eq!(filters[0].id, LZMA_FILTER_X86);
    let (msg, pos, _) = parse("x86 x86 x86 x86 lzma2", 0);
    assert_eq!(msg, Some(StrError::TooManyFilters));
    assert_eq!(pos, 16);
}

#[test]
fn str_option_errors() {
    let cases: [(&str, StrError, i32); 12] = [
        ("delta:dist=300", StrError::OutOfRange, 11),
        ("lzma2:dict=8X", StrError::InvalidSuffix, 12),
        ("lzma2:lc=2k", StrError::SuffixNotSupported, 10),
        ("lzma2:lc=4,lp=1", StrError::LcLpTooBig, 15),
        ("foo", StrError::UnknownFilterName, 0),
        ("lzma2:mode=slow", StrError::InvalidOptionValue, 11),
        ("lzma2:dict", StrError::NotNameValue, 6),
        ("lzma2:foo=1", StrError::UnknownOptionName, 6),
        ("lzma2:dict=", StrError::EmptyValue, 11),
        ("lzma2:lc=x", StrError::NotDecimal, 9),
        ("lzma2:depth=4294967296", StrError::OutOfRange, 12),
        ("lzma2 --", StrError::FilterNameMissing, 8),
    ];
    for (s, e, p) in cases {
        let (msg, pos, filters) = parse(s, 0);
        assert_eq!(msg, Some(e), "{}", s);
        assert_eq!(pos, p, "{}", s);
        assert_eq!(filters[0], end());
    }
}

#[test]
fn str_flags_and_messages() {
    let (msg, pos, _) = parse("6", 4);
    assert_eq!(msg, Some(StrError::UnsupportedFlags));
    assert_eq!(pos, 0);
    assert_eq!(StrError::OutOfRange.message(), "Value out of range");
    assert_eq!(
        StrError::InvalidChain.message(),
        "Invalid filter chain ('lzma2' missing at the end?)"
    );
}

#[test]
fn str_ends_at_zero_byte() {
    let mut filters = [end(); 5];
    let mut pos: i32 = -1;
    let r = lzma_str_to_filters(b"6\0garbage", &mut pos, &mut filters, 0);
    assert!(r.is_none());
    assert_eq!(pos, 1);
}

#[test]
fn str_error_messages() {
    assert_eq!(StrError::UnsupportedPreset.message(), "Unsupported preset");
    assert_eq!(StrError::LcLpTooBig.message(), "The sum of lc and lp must not exceed 4");
    assert_eq!(
        StrError::InvalidChain.message(),
        "Invalid filter chain ('lzma2' missing at the end?)"
    );
}
