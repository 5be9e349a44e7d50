use xz::filter::{Filter, FilterOptions, LzmaRaw};
use xz::stream::{LZMA_FINISH, LZMA_RUN, LZMA_SYNC_FLUSH};
use xz::stream_decoder::{lzma_stream_decoder_init, stream_decode_step, StreamStep};
use xz::stream_encoder::{lzma_stream_encoder_init, stream_encode_step, stream_encoder_update, StreamEncoder};
use xz::types::{
    LZMA_CHECK_CRC64, LZMA_FILTER_LZMA2, LZMA_OK, LZMA_PROG_ERROR, LZMA_STREAM_END,
    LZMA_VLI_UNKNOWN,
};
use xz::xz_stored::xz_stored_encode;

fn lzma2_chain() -> [Filter; 5] {
    let end = Filter { id: LZMA_VLI_UNKNOWN, options: FilterOptions::Absent };
    let lzma = LzmaRaw { dict_size: 1 << 20, lc: 3, lp: 0, pb: 2, mode: 2, nice_len: 64, mf: 0x14, depth: 0 };
    [Filter { id: LZMA_FILTER_LZMA2, options: FilterOptions::Lzma(lzma) }, end, end, end, end]
}

/// Steps the encoder until it asks for something other than another step.
fn drive(c: &mut StreamEncoder, out: &mut Vec<u8>, out_size: usize, input_left: bool, action: u32,
    mut ended: Option<(u64, u64)>) -> StreamStep {
    loop {
        let step = stream_encode_step(c, out, out_size, input_left, action, ended.take());
        if step != StreamStep::Continue {
            return step;
        }
    }
}

#[test]
fn stream_encoder_empty_stream() {
    let mut c = lzma_stream_encoder_init(lzma2_chain(), LZMA_CHECK_CRC64).ok().unwrap();
    let mut out = Vec::new();
    assert_eq!(drive(&mut c, &mut out, 1 << 16, false, LZMA_FINISH, None), StreamStep::Done(LZMA_STREAM_END));
    // With no Block the Stream is the same as the one of no data.
    assert_eq!(out, xz_stored_encode(b"", LZMA_CHECK_CRC64).ok().unwrap());
}

#[test]
fn stream_encoder_small_output() {
    let mut c = lzma_stream_encoder_init(lzma2_chain(), LZMA_CHECK_CRC64).ok().unwrap();
    let mut out = Vec::new();
    assert_eq!(stream_encode_step(&mut c, &mut out, 5, false, LZMA_FINISH, None), StreamStep::Done(LZMA_OK));
    assert_eq!(out.len(), 5);
    // A full output buffer asks for room first.
    assert_eq!(stream_encode_step(&mut c, &mut out, 5, false, LZMA_FINISH, None), StreamStep::Done(LZMA_OK));
    assert_eq!(out.len(), 5);
    assert_eq!(drive(&mut c, &mut out, 1 << 16, false, LZMA_FINISH, None), StreamStep::Done(LZMA_STREAM_END));
    assert_eq!(out, xz_stored_encode(b"", LZMA_CHECK_CRC64).ok().unwrap());
}

#[test]
fn stream_encoder_actions_without_input() {
    let mut c = lzma_stream_encoder_init(lzma2_chain(), LZMA_CHECK_CRC64).ok().unwrap();
    let mut out = Vec::new();
    assert_eq!(drive(&mut c, &mut out, 1 << 16, false, LZMA_RUN, None), StreamStep::Done(LZMA_OK));
    assert_eq!(out.len(), 12);
    assert_eq!(drive(&mut c, &mut out, 1 << 16, false, LZMA_SYNC_FLUSH, None), StreamStep::Done(LZMA_STREAM_END));
    assert_eq!(out.len(), 12);
}

#[test]
fn stream_encoder_bad_check() {
    assert_eq!(lzma_stream_encoder_init(lzma2_chain(), 16).err(), Some(LZMA_PROG_ERROR));
}

#[test]
fn stream_encoder_one_block_layout() {
    let mut c = lzma_stream_encoder_init(lzma2_chain(), LZMA_CHECK_CRC64).ok().unwrap();
    let mut out = Vec::new();
    assert_eq!(drive(&mut c, &mut out, 1 << 16, true, LZMA_RUN, None), StreamStep::RunBlock);
    let hs = c.block().header_size as usize;
    assert_eq!(out.len(), 12 + hs);
    assert_eq!(out[12] as usize, hs / 4 - 1);
    // Stand in for the Block coder: 20 bytes of Block data, sizes unknown in
    // the header, so the Unpadded Size is header + data + check.
    let data_len = 20usize;
    out.extend(std::iter::repeat(0u8).take(data_len + 8));
    let unpadded = (hs + data_len + 8) as u64;
    assert_eq!(
        drive(&mut c, &mut out, 1 << 16, false, LZMA_FINISH, Some((unpadded, 7))),
        StreamStep::Done(LZMA_STREAM_END)
    );
    // The Index lists that one Block and the decoder's Index check accepts it.
    let i = 12 + hs + data_len + 8;
    assert_eq!(&out[i..i + 4], &[0u8, 1, unpadded as u8, 7]);
    let mut d = lzma_stream_decoder_init(u64::MAX, 0).ok().unwrap();
    let mut pos = 0usize;
    let mut ended = None;
    loop {
        match stream_decode_step(&mut d, &out, &mut pos, ended.take(), true) {
            StreamStep::Continue => {}
            StreamStep::RunBlock => {
                pos = i;
                ended = Some((unpadded, 7));
            }
            StreamStep::Done(code) => {
                assert_eq!((code, pos), (LZMA_STREAM_END, out.len()));
                break;
            }
        }
    }
}

#[test]
fn stream_encoder_update_filters() {
    let mut c = lzma_stream_encoder_init(lzma2_chain(), LZMA_CHECK_CRC64).ok().unwrap();
    let mut other = lzma2_chain();
    if let FilterOptions::Lzma(ref mut o) = other[0].options {
        o.dict_size = 1 << 22;
    }
    assert_eq!(stream_encoder_update(&mut c, other), StreamStep::Done(LZMA_OK));
    assert_eq!(c.block().filters, other);
    let mut out = Vec::new();
    assert_eq!(drive(&mut c, &mut out, 1 << 16, true, LZMA_RUN, None), StreamStep::RunBlock);
    // Mid-Block the Block coder is asked to take the new filters.
    assert_eq!(stream_encoder_update(&mut c, lzma2_chain()), StreamStep::RunBlock);
    assert_eq!(
        drive(&mut c, &mut out, 1 << 16, false, LZMA_FINISH, Some((40, 7))),
        StreamStep::Done(LZMA_STREAM_END)
    );
    // After the last Block it is too late.
    assert_eq!(stream_encoder_update(&mut c, other), StreamStep::Done(LZMA_PROG_ERROR));
}
