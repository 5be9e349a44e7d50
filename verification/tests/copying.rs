use xz::common::lzma_bufcpy;
use xz::filter::{lzma_filters_copy, lzma_filters_free, Filter, FilterOptions, LzmaRaw};
use xz::types::{
    LZMA_FILTER_DELTA, LZMA_FILTER_LZMA2, LZMA_FILTER_X86, LZMA_OK, LZMA_OPTIONS_ERROR,
    LZMA_VLI_UNKNOWN,
};

const END: Filter = Filter { id: LZMA_VLI_UNKNOWN, options: FilterOptions::Absent };

fn lzma2() -> Filter {
    Filter {
        id: LZMA_FILTER_LZMA2,
        options: FilterOptions::Lzma(LzmaRaw {
            dict_size: 1 << 20,
            lc: 3,
            lp: 0,
            pb: 2,
            mode: 2,
            nice_len: 64,
            mf: 0x14,
            depth: 0,
        }),
    }
}

#[test]
fn bufcpy_copies_what_fits() {
    let input = [1u8, 2, 3, 4, 5];
    let mut out = [0u8; 4];
    let mut ip = 1usize;
    let mut op = 2usize;
    assert_eq!(lzma_bufcpy(&input, &mut ip, 5, &mut out, &mut op, 4), 2);
    assert_eq!((ip, op), (3, 4));
    assert_eq!(out, [0, 0, 2, 3]);
    // The output is full: nothing more moves.
    assert_eq!(lzma_bufcpy(&input, &mut ip, 5, &mut out, &mut op, 4), 0);
    assert_eq!((ip, op), (3, 4));
    // Limited by the input size given.
    let mut out = [9u8; 8];
    let mut ip = 0usize;
    let mut op = 0usize;
    assert_eq!(lzma_bufcpy(&input, &mut ip, 3, &mut out, &mut op, 8), 3);
    assert_eq!(&out[..4], &[1, 2, 3, 9]);
    // A position past its size.
    let mut ip = 6usize;
    assert_eq!(lzma_bufcpy(&input, &mut ip, 5, &mut out, &mut op, 8), 0);
    assert_eq!((ip, op), (6, 3));
}

#[test]
fn filters_copy_and_free() {
    let delta = Filter { id: LZMA_FILTER_DELTA, options: FilterOptions::Delta { dist: 2 } };
    let src = [delta, lzma2(), END, lzma2(), lzma2()];
    let marker = Filter { id: LZMA_FILTER_X86, options: FilterOptions::Bcj { start_offset: 8 } };
    let mut dest = [marker; 5];
    assert_eq!(lzma_filters_copy(&src, &mut dest), LZMA_OK);
    assert_eq!(dest, [delta, lzma2(), END, marker, marker]);

    // Options of an unknown filter cannot be copied; no options can.
    let odd = Filter { id: 0x7777, options: FilterOptions::Delta { dist: 1 } };
    let mut dest2 = [marker; 5];
    assert_eq!(lzma_filters_copy(&[odd, END, END, END, END], &mut dest2), LZMA_OPTIONS_ERROR);
    assert_eq!(dest2, [marker; 5]);
    let bare = Filter { id: 0x7777, options: FilterOptions::Absent };
    assert_eq!(lzma_filters_copy(&[bare, END, END, END, END], &mut dest2), LZMA_OK);
    assert_eq!(dest2[0], bare);
    assert_eq!(dest2[1], END);

    // Five filters with no end marker.
    assert_eq!(lzma_filters_copy(&[delta; 5], &mut dest2), LZMA_OPTIONS_ERROR);

    lzma_filters_free(&mut dest);
    assert_eq!(dest, [END, END, END, marker, marker]);
    let mut full = [delta; 5];
    lzma_filters_free(&mut full);
    assert_eq!(full, [END, END, END, END, delta]);
}
