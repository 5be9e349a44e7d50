use xz::probe::{
    fold_bytes, make_random_payload, make_text_payload, next_arg, parse_allocator,
    parse_input_kind, parse_u32, parse_usize, parse_workload, usage, AllocatorPolicy, Config,
    InputKind, Workload, TEXT_CHUNK,
};

fn args(v: &[&str]) -> Vec<String> {
    v.iter().map(|s| s.to_string()).collect()
}

#[test]
fn config_defaults() {
    let c = Config::parse(&[]).unwrap();
    assert_eq!(c.workload, Workload::Encode);
    assert_eq!(c.input_kind, InputKind::Text);
    assert_eq!(c.size, 1024 * 1024);
    assert_eq!(c.preset, 6);
    assert_eq!(c.iters, 200);
    assert_eq!(c.warmup, 20);
    assert_eq!(c.allocator, AllocatorPolicy::Default);
    assert!(c.input_path.is_none());
    assert!(c.chunk_size.is_none());
}

#[test]
fn config_reads_flags() {
    let a = args(&[
        "--workload", "crc64", "--input-kind", "random", "--size", "+4096", "--chunk-size", "512",
        "--preset", "9", "--iters", "3", "--warmup", "0", "--input", "in.bin", "--save-output",
        "out.bin",
    ]);
    let c = Config::parse(&a).unwrap();
    assert_eq!(c.workload, Workload::Crc64);
    assert_eq!(c.input_kind, InputKind::Random);
    assert_eq!(c.size, 4096);
    assert_eq!(c.chunk_size, Some(512));
    assert_eq!(c.preset, 9);
    assert_eq!(c.iters, 3);
    assert_eq!(c.warmup, 0);
    assert_eq!(c.input_path.as_deref(), Some("in.bin"));
    assert_eq!(c.save_output_path.as_deref(), Some("out.bin"));
}

#[test]
fn config_errors() {
    let e = Config::parse(&args(&["--iters", "0"])).unwrap_err();
    assert_eq!(e, "`--iters` must be greater than zero");
    let e = Config::parse(&args(&["--workload", "crc32", "--chunk-size", "0"])).unwrap_err();
    assert_eq!(e, "`--chunk-size` must be greater than zero");
    let e = Config::parse(&args(&["--workload", "decode", "--compressed-input", "x.xz"])).unwrap_err();
    assert_eq!(e, "`decode`/`size` with `--compressed-input` also requires `--expected-size`");
    let e = Config::parse(&args(&["--chunk-size", "8"])).unwrap_err();
    assert_eq!(e, "`--chunk-size` is only supported with crc32/crc64 workloads");
    let e = Config::parse(&args(&["--allocator", "rust"])).unwrap_err();
    assert_eq!(e, "`--allocator` requires `--features xz-core-custom-allocator`");
    let e = Config::parse(&args(&["--bogus"])).unwrap_err();
    assert_eq!(e, format!("unknown argument `--bogus`\n\n{}", usage()));
    let e = Config::parse(&args(&["-h"])).unwrap_err();
    assert_eq!(e, usage());
    let e = Config::parse(&args(&["--size"])).unwrap_err();
    assert_eq!(e, format!("missing value for `--size`\n\n{}", usage()));
    let e = Config::parse(&args(&["--size", "12x"])).unwrap_err();
    assert_eq!(e, "failed to parse `--size` as usize: `12x`");
    let e = Config::parse(&args(&["--workload", "zip"])).unwrap_err();
    assert_eq!(e, "unsupported workload `zip`");
    let c = Config::parse(&args(&["--workload", "size", "--compressed-input", "x.xz", "--expected-size", "10"]))
        .unwrap();
    assert_eq!(c.expected_size, Some(10));
}

#[test]
fn value_parsers() {
    assert_eq!(parse_workload("size".to_string()), Ok(Workload::Size));
    assert_eq!(parse_input_kind("text".to_string()), Ok(InputKind::Text));
    assert_eq!(parse_input_kind("noise".to_string()), Err("unsupported input kind `noise`".to_string()));
    assert_eq!(parse_allocator("c".to_string()), Ok(AllocatorPolicy::C));
    assert_eq!(parse_allocator("gc".to_string()), Err("unsupported allocator `gc`".to_string()));
    assert_eq!(parse_u32("4294967295".to_string(), "--preset"), Ok(u32::MAX));
    assert_eq!(
        parse_u32("4294967296".to_string(), "--preset"),
        Err("failed to parse `--preset` as u32: `4294967296`".to_string())
    );
    assert_eq!(parse_usize("+".to_string(), "--iters").is_err(), true);
    assert_eq!(parse_usize("".to_string(), "--iters").is_err(), true);
    assert_eq!(parse_usize("-1".to_string(), "--iters").is_err(), true);
    assert_eq!(parse_usize("007".to_string(), "--iters"), Ok(7));
    let a = args(&["--size", "5"]);
    assert_eq!(next_arg(&a, 0, "--size"), Ok("5".to_string()));
    assert!(next_arg(&a, 1, "5").is_err());
}

#[test]
fn usage_text_starts_with_usage() {
    let u = usage();
    assert!(u.starts_with("Usage:\n"));
    assert!(u.ends_with("policy probe only\n"));
}

#[test]
fn payloads() {
    let r = make_random_payload(1000);
    assert_eq!(r.len(), 1000);
    let mut x: u64 = 0x9E3779B97F4A7C15;
    for &b in &r {
        x ^= x >> 12;
        x ^= x << 25;
        x ^= x >> 27;
        assert_eq!(b, (x.wrapping_mul(0x2545F4914F6CDD1D) >> 56) as u8);
    }
    let t = make_text_payload(300);
    assert_eq!(t.len(), 300);
    let chunk = TEXT_CHUNK.as_bytes();
    for (i, &b) in t.iter().enumerate() {
        assert_eq!(b, chunk[i % chunk.len()]);
    }
    assert!(make_text_payload(0).is_empty());
}

#[test]
fn fold_bytes_digest() {
    assert_eq!(fold_bytes(0, &[]), 0);
    assert_eq!(fold_bytes(1, &[2]), (1u64.rotate_left(5)) ^ 2);
    let data: Vec<u8> = (0..40).collect();
    let mut acc = 40u64;
    for &b in data.iter().take(32) {
        acc = acc.rotate_left(5) ^ u64::from(b);
    }
    assert_eq!(fold_bytes(40, &data), acc);
}
