use xz::filter::{Filter, FilterOptions, LZMA_MF_BT4, LZMA_MF_HC4, LZMA_MODE_FAST, LZMA_MODE_NORMAL};
use xz::stream::{
    cvt, lzma_internal_s, Action, Check, Error, Filters, LzmaOptions, MatchFinder, Mode,
    MtStreamBuilder, Status, Stream, ISEQ_END, ISEQ_ERROR, ISEQ_FINISH, ISEQ_RUN,
    ISEQ_SYNC_FLUSH, PRESET_EXTREME,
};
use xz::types::{
    LZMA_BUF_ERROR, LZMA_DATA_ERROR, LZMA_FILTER_DELTA, LZMA_FILTER_LZMA1, LZMA_FILTER_LZMA2,
    LZMA_FILTER_X86, LZMA_GET_CHECK, LZMA_OK, LZMA_PROG_ERROR, LZMA_SEEK_NEEDED, LZMA_STREAM_END,
    LZMA_TIMED_OUT,
};

#[test]
fn return_codes_map_to_statuses_and_errors() {
    assert_eq!(cvt(0), Ok(Status::Success));
    assert_eq!(cvt(1), Ok(Status::StreamEnd));
    assert_eq!(cvt(2), Err(Error::NoCheck));
    assert_eq!(cvt(3), Err(Error::UnsupportedCheck));
    assert_eq!(cvt(4), Ok(Status::GetCheck));
    assert_eq!(cvt(5), Err(Error::Mem));
    assert_eq!(cvt(6), Err(Error::MemLimit));
    assert_eq!(cvt(7), Err(Error::Format));
    assert_eq!(cvt(8), Err(Error::Options));
    assert_eq!(cvt(9), Err(Error::Data));
    assert_eq!(cvt(10), Ok(Status::MemNeeded));
    assert_eq!(cvt(11), Err(Error::Program));
}

#[test]
fn error_messages() {
    assert_eq!(Error::Data.message(), "lzma data error");
    assert_eq!(Error::Options.message(), "invalid options");
    assert_eq!(Error::Format.message(), "stream/file format not recognized");
    assert_eq!(Error::MemLimit.message(), "memory limit reached");
    assert_eq!(Error::Mem.message(), "can't allocate memory");
    assert_eq!(Error::Program.message(), "liblzma internal error");
    assert_eq!(Error::NoCheck.message(), "no integrity check was available");
    assert_eq!(Error::UnsupportedCheck.message(), "liblzma not built with check support");
}

#[test]
fn codes_of_actions_checks_modes_and_match_finders() {
    assert_eq!(Action::Run.to_raw(), 0);
    assert_eq!(Action::SyncFlush.to_raw(), 1);
    assert_eq!(Action::FullFlush.to_raw(), 2);
    assert_eq!(Action::Finish.to_raw(), 3);
    assert_eq!(Action::FullBarrier.to_raw(), 4);
    assert_eq!(Check::NoCheck.to_raw(), 0);
    assert_eq!(Check::Crc32.to_raw(), 1);
    assert_eq!(Check::Crc64.to_raw(), 4);
    assert_eq!(Check::Sha256.to_raw(), 10);
    assert!(Check::Sha256.is_supported());
    assert!(Check::NoCheck.is_supported());
    assert_eq!(Mode::Fast.to_raw(), 1);
    assert_eq!(Mode::Normal.to_raw(), 2);
    assert_eq!(MatchFinder::HashChain3.to_raw(), 0x03);
    assert_eq!(MatchFinder::BinaryTree4.to_raw(), 0x14);
}

#[test]
fn preset_options_and_setters() {
    let opts = LzmaOptions::new_preset(6).unwrap();
    let raw = opts.raw();
    assert_eq!(raw.dict_size, 8 << 20);
    assert_eq!((raw.lc, raw.lp, raw.pb), (3, 0, 2));
    assert_eq!(raw.mode, LZMA_MODE_NORMAL);
    assert_eq!(raw.nice_len, 64);
    assert_eq!(raw.mf, LZMA_MF_BT4);
    assert_eq!(raw.depth, 0);

    let extreme = LzmaOptions::new_preset(6 | PRESET_EXTREME).unwrap().raw();
    assert_eq!(extreme.nice_len, 273);
    assert_eq!(extreme.depth, 512);

    assert!(matches!(LzmaOptions::new_preset(10), Err(Error::Program)));
    assert!(matches!(LzmaOptions::new_preset(6 | 0x100), Err(Error::Program)));

    let mut o = LzmaOptions::new();
    o.dict_size(1 << 20)
        .literal_context_bits(2)
        .literal_position_bits(1)
        .position_bits(3)
        .mode(Mode::Fast)
        .nice_len(100)
        .match_finder(MatchFinder::HashChain4)
        .depth(7);
    let r = o.raw();
    assert_eq!(r.dict_size, 1 << 20);
    assert_eq!((r.lc, r.lp, r.pb), (2, 1, 3));
    assert_eq!(r.mode, LZMA_MODE_FAST);
    assert_eq!(r.nice_len, 100);
    assert_eq!(r.mf, LZMA_MF_HC4);
    assert_eq!(r.depth, 7);
}

#[test]
fn filters_are_added_before_the_end_marker() {
    let mut opts = LzmaOptions::new_preset(6).unwrap();
    opts.dict_size(0x40000);
    let mut filters = Filters::new();
    filters.delta();
    filters.x86();
    filters.lzma2(&opts);
    let chain = filters.as_slice();
    assert_eq!(chain.len(), 4);
    assert_eq!(chain[0].id, LZMA_FILTER_DELTA);
    assert_eq!(chain[1].id, LZMA_FILTER_X86);
    assert_eq!(chain[2].id, LZMA_FILTER_LZMA2);
    assert_eq!(chain[2].options, FilterOptions::Lzma(opts.raw()));
    assert_eq!(chain[3].id, u64::MAX);
}

#[test]
fn mt_block_size_of_lzma2_with_small_dictionary() {
    let dict_size = 0x40000;
    let mut opts = LzmaOptions::new_preset(6).unwrap();
    opts.dict_size(dict_size);
    let mut filters = Filters::new();
    filters.lzma2(&opts);
    assert_eq!(filters.mt_block_size(), 1 << 20);

    let mut big = Filters::new();
    big.lzma2(&LzmaOptions::new_preset(6).unwrap());
    assert_eq!(big.mt_block_size(), 3 * (8 << 20));

    let mut none = Filters::new();
    none.delta();
    assert_eq!(none.mt_block_size(), u64::MAX);
    assert_eq!(Filters::new().mt_block_size(), u64::MAX);
}

#[test]
fn filters_from_properties() {
    let mut filters = Filters::new();
    filters.delta_properties(&[0x00]).unwrap();
    filters.x86_properties(&[0x00, 0x00, 0x00, 0x00]).unwrap();
    filters.arm_properties(&[0x10, 0x00, 0x00, 0x00]).unwrap();
    filters.lzma1_properties(&[0x5d, 0x00, 0x00, 0x80, 0x00]).unwrap();
    let chain = filters.as_slice();
    assert_eq!(chain[0].options, FilterOptions::Delta { dist: 1 });
    assert_eq!(chain[1].options, FilterOptions::Absent);
    assert_eq!(chain[2].options, FilterOptions::Bcj { start_offset: 16 });
    assert_eq!(chain[3].id, LZMA_FILTER_LZMA1);
    match chain[3].options {
        FilterOptions::Lzma(o) => {
            assert_eq!(o.dict_size, 0x80_0000);
            assert_eq!((o.lc, o.lp, o.pb), (3, 0, 2));
        }
        _ => panic!("LZMA1 options expected"),
    }

    let mut f2 = Filters::new();
    assert!(matches!(f2.lzma2_properties(&[41]), Err(Error::Options)));
    assert!(matches!(f2.delta_properties(&[0, 0]), Err(Error::Options)));
    assert!(matches!(f2.sparc_properties(&[1, 2]), Err(Error::Options)));
    assert_eq!(f2.as_slice().len(), 1);
    f2.lzma2_properties(&[22]).unwrap();
    assert_eq!(f2.as_slice()[0], Filter {
        id: LZMA_FILTER_LZMA2,
        options: FilterOptions::Lzma(xz::filter::LzmaRaw {
            dict_size: 8 << 20,
            lc: 0,
            lp: 0,
            pb: 0,
            mode: 0,
            nice_len: 0,
            mf: 0,
            depth: 0,
        }),
    });
}

#[test]
fn mt_builder_defaults_and_setters() {
    let mut b = MtStreamBuilder::new();
    assert_eq!(b.threads, 1);
    assert_eq!(b.block_size, 0);
    assert_eq!(b.check, Check::NoCheck);
    assert!(b.filters.is_none());
    b.threads(4)
        .block_size(1 << 20)
        .timeout_ms(300)
        .preset(9)
        .check(Check::Crc64)
        .flags(8)
        .memlimit_threading(1 << 30)
        .memlimit_stop(u64::MAX);
    let mut f = Filters::new();
    f.lzma2(&LzmaOptions::new_preset(1).unwrap());
    b.filters(f);
    assert_eq!(b.threads, 4);
    assert_eq!(b.block_size, 1 << 20);
    assert_eq!(b.timeout, 300);
    assert_eq!(b.preset, 9);
    assert_eq!(b.check, Check::Crc64);
    assert_eq!(b.flags, 8);
    assert_eq!(b.memlimit_threading, 1 << 30);
    assert_eq!(b.memlimit_stop, u64::MAX);
    assert_eq!(b.filters.as_ref().unwrap().as_slice().len(), 2);
}

fn decoder_stream() -> Stream {
    let mut s = Stream::new();
    s.support(Action::Run);
    s.support(Action::Finish);
    s
}

#[test]
fn coding_calls_count_input_and_output() {
    let mut s = decoder_stream();
    assert_eq!(s.total_in(), 0);
    assert_eq!(s.code_start(Action::Run, 100), None);
    assert_eq!(s.code_finish(60, 200, 100, LZMA_OK), LZMA_OK);
    assert_eq!(s.total_in(), 60);
    assert_eq!(s.total_out(), 200);
    assert_eq!(s.code_start(Action::Run, 40), None);
    assert_eq!(s.code_finish(40, 10, 40, LZMA_STREAM_END), LZMA_STREAM_END);
    assert_eq!(s.total_in(), 100);
    assert_eq!(s.total_out(), 210);
    assert_eq!(s.code_start(Action::Run, 5), Some(LZMA_STREAM_END));
}

#[test]
fn unsupported_action_is_a_programming_error() {
    let mut s = decoder_stream();
    assert_eq!(s.code_start(Action::SyncFlush, 0), Some(LZMA_PROG_ERROR));
    assert_eq!(s.code_start(Action::FullBarrier, 0), Some(LZMA_PROG_ERROR));
}

#[test]
fn finish_must_be_repeated_with_the_same_input() {
    let mut s = decoder_stream();
    assert_eq!(s.code_start(Action::Finish, 10), None);
    assert_eq!(s.code_finish(4, 7, 10, LZMA_OK), LZMA_OK);
    // Six bytes are left; another action or another amount is refused.
    assert_eq!(s.code_start(Action::Run, 6), Some(LZMA_PROG_ERROR));
    assert_eq!(s.code_start(Action::Finish, 7), Some(LZMA_PROG_ERROR));
    assert_eq!(s.code_start(Action::Finish, 6), None);
    assert_eq!(s.code_finish(6, 1, 6, LZMA_STREAM_END), LZMA_STREAM_END);
    assert_eq!(s.code_start(Action::Finish, 0), Some(LZMA_STREAM_END));
}

#[test]
fn second_call_without_progress_reports_mem_needed() {
    let mut s = decoder_stream();
    assert_eq!(s.code_start(Action::Run, 0), None);
    assert_eq!(s.code_finish(0, 0, 0, LZMA_OK), LZMA_OK);
    assert_eq!(s.code_start(Action::Run, 0), None);
    assert_eq!(s.code_finish(0, 0, 0, LZMA_OK), LZMA_BUF_ERROR);
    assert_eq!(cvt(LZMA_BUF_ERROR), Ok(Status::MemNeeded));
    // Progress clears it.
    assert_eq!(s.code_start(Action::Run, 3), None);
    assert_eq!(s.code_finish(3, 0, 3, LZMA_OK), LZMA_OK);
    assert_eq!(s.code_start(Action::Run, 0), None);
    assert_eq!(s.code_finish(0, 0, 0, LZMA_OK), LZMA_OK);
}

#[test]
fn timed_out_seek_and_errors() {
    let mut s = decoder_stream();
    assert_eq!(s.code_start(Action::Run, 0), None);
    assert_eq!(s.code_finish(0, 0, 0, LZMA_TIMED_OUT), LZMA_OK);
    assert_eq!(s.code_start(Action::Finish, 0), None);
    assert_eq!(s.code_finish(0, 0, 0, LZMA_SEEK_NEEDED), LZMA_SEEK_NEEDED);
    assert_eq!(s.code_start(Action::Run, 0), None);
    assert_eq!(s.code_finish(0, 0, 0, LZMA_GET_CHECK), LZMA_GET_CHECK);
    assert_eq!(s.code_start(Action::Run, 0), None);
    assert_eq!(s.code_finish(0, 0, 0, LZMA_DATA_ERROR), LZMA_DATA_ERROR);
    assert_eq!(s.code_start(Action::Run, 0), Some(LZMA_PROG_ERROR));
}

#[test]
fn internal_state_constants() {
    let st = lzma_internal_s {
        sequence: ISEQ_SYNC_FLUSH,
        avail_in: 0,
        supported_actions: [true; 5],
        allow_buf_error: false,
    };
    assert_eq!(st.sequence, 1);
    assert_eq!((ISEQ_RUN, ISEQ_FINISH, ISEQ_END, ISEQ_ERROR), (0, 3, 5, 6));
}
