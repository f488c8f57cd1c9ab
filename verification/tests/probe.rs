//! Sampling, padding and pacing.
use bencher::archive::{unix_mode, unzipped_size, zip_files, zip_single, ArchiveFile};
use bencher::config::{
    synth_function_name, Arch, SYNTH_DEFAULT_SIZES_MB, SYNTH_IMAGE_FAMILIES, SYNTH_ZIP_FAMILIES,
};
use bencher::rate_limiter::RateLimiter;
use bencher::sample::{median, order_key, spread};
use bencher::synthetic::{
    base_image_estimate, bootstrap_from_zip, bootstrap_label, build_padded_zip, image_family,
    image_function_name, image_platform, image_tag, is_zip_baseline, synthetic_units,
    write_incompressible, SynthRuntime, MAX_SYNTHETIC_MB,
};
use flate2::write::ZlibEncoder;
use flate2::Compression;
use std::io::{Read, Write};

fn keys(v: &[f64]) -> Vec<i64> {
    v.iter().map(|x| order_key(x.to_bits())).collect()
}

/// The median of numbers: the mean of the two that stand in the middle.
fn median_of(v: &[f64]) -> f64 {
    let (lower, upper) = median(&keys(v));
    if lower == upper {
        v[lower]
    } else {
        (v[lower] + v[upper]) / 2.0
    }
}

fn spread_of(v: &[f64]) -> (f64, f64) {
    let (least, greatest) = spread(&keys(v));
    (v[least], v[greatest])
}

struct Sample {
    w_cold: f64,
    init: f64,
    cold_duration: f64,
    warm_rtt: f64,
    w_warm: f64,
    residual: f64,
}

fn sample_with(residual: f64) -> Sample {
    Sample {
        w_cold: 0.0,
        init: 0.0,
        cold_duration: 0.0,
        warm_rtt: 0.0,
        w_warm: 0.0,
        residual,
    }
}

fn column(samples: &[Sample], pick: fn(&Sample) -> f64) -> Vec<f64> {
    samples.iter().map(pick).collect()
}

#[test]
fn reordered_measurements_have_the_same_median() {
    let sorted = [1.0, 2.0, 2.0, 3.5, 8.0, 9.25];
    for turn in 0..sorted.len() {
        let mut v = sorted.to_vec();
        v.rotate_left(turn);
        assert_eq!(median_of(&v), 2.75);
        v.reverse();
        assert_eq!(median_of(&v), 2.75);
    }
}

/// Odd counts give the middle value; even counts the mean of the two central
/// values; a single value is itself. Input order does not matter.
#[test]
fn median_odd_even_and_single() {
    assert_eq!(median_of(&[5.0]), 5.0);
    assert_eq!(median_of(&[3.0, 1.0, 2.0]), 2.0);
    assert_eq!(median_of(&[4.0, 1.0, 3.0, 2.0]), 2.5);
    assert_eq!(median_of(&[10.0, 2.0, 2.0, 8.0, 6.0]), 6.0);
}

/// Each term is reduced to its own median, and spreads are over the samples.
#[test]
fn aggregate_reduces_each_term_and_reports_spread() {
    let samples = [
        Sample {
            w_cold: 300.0,
            init: 100.0,
            cold_duration: 20.0,
            warm_rtt: 5.0,
            w_warm: 7.0,
            residual: 175.0,
        },
        Sample {
            w_cold: 320.0,
            init: 110.0,
            cold_duration: 22.0,
            warm_rtt: 6.0,
            w_warm: 8.5,
            residual: 182.0,
        },
        Sample {
            w_cold: 310.0,
            init: 105.0,
            cold_duration: 21.0,
            warm_rtt: 4.0,
            w_warm: 6.0,
            residual: 180.0,
        },
    ];
    assert_eq!(samples.len(), 3);
    assert_eq!(median_of(&column(&samples, |s| s.w_cold)), 310.0);
    assert_eq!(median_of(&column(&samples, |s| s.init)), 105.0);
    assert_eq!(median_of(&column(&samples, |s| s.cold_duration)), 21.0);
    assert_eq!(median_of(&column(&samples, |s| s.warm_rtt)), 5.0);
    assert_eq!(median_of(&column(&samples, |s| s.w_warm)), 7.0);
    assert_eq!(median_of(&column(&samples, |s| s.residual)), 180.0);
    assert_eq!(spread_of(&column(&samples, |s| s.w_cold)), (300.0, 320.0));
    assert_eq!(spread_of(&column(&samples, |s| s.w_warm)), (6.0, 8.5));
    assert_eq!(spread_of(&column(&samples, |s| s.residual)), (175.0, 182.0));
}

/// The spread widens to the true extremes even when they sit far from the median,
/// and a single sample collapses it.
#[test]
fn aggregate_spread_tracks_extremes_and_collapses_for_one_sample() {
    let wide = [
        sample_with(200.0),
        sample_with(50.0),
        sample_with(180.0),
        sample_with(500.0),
        sample_with(190.0),
    ];
    let residuals = column(&wide, |s| s.residual);
    assert_eq!(median_of(&residuals), 190.0);
    assert_eq!(spread_of(&residuals), (50.0, 500.0));

    let single = [sample_with(123.0)];
    let residuals = column(&single, |s| s.residual);
    assert_eq!(median_of(&residuals), 123.0);
    assert_eq!(spread_of(&residuals), (123.0, 123.0));
}

#[test]
fn order_keys_follow_the_numbers() {
    let ascending: [f64; 9] = [-1.0e300, -2.5, -1.0, -1.0e-300, 0.0, 1.0e-300, 0.5, 3.0, 1.0e300];
    for pair in ascending.windows(2) {
        assert!(order_key(pair[0].to_bits()) < order_key(pair[1].to_bits()));
    }
    assert_eq!(order_key((-0.0f64).to_bits()), order_key(0.0f64.to_bits()));
    assert_eq!(spread_of(&[-3.0, 2.0, -7.5]), (-7.5, 2.0));
}

#[test]
fn padded_zip_hits_target_and_is_valid() {
    let cases = [
        (
            SynthRuntime::Python,
            "handler.py",
            &b"def handler(e, c):\n    return {}\n"[..],
        ),
        (
            SynthRuntime::Rust,
            "bootstrap",
            &b"\x7fELF fake bootstrap bytes"[..],
        ),
    ];
    for (rt, base_name, base) in cases {
        for mb in [1u32, 5] {
            let bytes = build_padded_zip(rt, &base.to_vec(), mb).expect("build padded zip");
            let target = mb as usize * 1024 * 1024;
            let delta = bytes.len().abs_diff(target);
            assert!(
                delta < 4096,
                "{base_name} {mb}MB: got {} bytes, target {target}, delta {delta}",
                bytes.len()
            );
            // Exactly the bodies, their headers and the closing record.
            assert_eq!(
                bytes.len(),
                target - 1024 + 22 + 2 * 76 + 2 * base_name.len() + 2 * "padding.bin".len()
            );
            let mut zip = zip::ZipArchive::new(std::io::Cursor::new(bytes)).expect("valid zip");
            let names: Vec<String> = (0..zip.len())
                .map(|i| zip.by_index(i).unwrap().name().to_string())
                .collect();
            assert!(names.iter().any(|n| n == base_name));
            assert!(names.iter().any(|n| n == "padding.bin"));
            let mut body = Vec::new();
            zip.by_name(base_name)
                .unwrap()
                .read_to_end(&mut body)
                .unwrap();
            assert_eq!(body, base);
            let mode = zip.by_name(base_name).unwrap().unix_mode().unwrap();
            assert_eq!(mode & 0o777, if base_name == "bootstrap" { 0o755 } else { 0o644 });
        }
    }
}

#[test]
fn entries_keep_their_permissions() {
    let body = b"body".to_vec();
    let rust = build_padded_zip(SynthRuntime::Rust, &body, 1).unwrap();
    assert_eq!(unix_mode(&rust, "bootstrap"), Some(0o100755));
    assert_eq!(unix_mode(&rust, "padding.bin"), Some(0o100644));
    let python = build_padded_zip(SynthRuntime::Python, &body, 1).unwrap();
    assert_eq!(unix_mode(&python, "handler.py"), Some(0o100644));
    // Only the permission bits are taken over.
    for (given, kept) in [(0o755, 0o100755), (0, 0o100000), (0o4711, 0o100711)] {
        let archive = zip_single("bootstrap", &body, given).unwrap();
        assert_eq!(unix_mode(&archive, "bootstrap"), Some(kept));
    }
    let archive = zip_single("bootstrap", &body, 0o755).unwrap();
    assert_eq!(unix_mode(&archive, "other"), None);
    assert_eq!(unix_mode(&b"no archive".to_vec(), "bootstrap"), None);
}

#[test]
fn names_of_any_characters_are_read_back() {
    let names = [
        "node_modules/@aws-sdk/a+b (1).js",
        "a\\b",
        "trailing/",
        "sixteen-letters.",
        "h\u{e9}llo/\u{4e16}\u{754c}.txt",
        "\u{1f980}",
        "tab\tand\u{6}\u{7}",
        "",
        "~",
    ];
    let files: Vec<ArchiveFile> = names
        .iter()
        .map(|n| ArchiveFile {
            name: n.to_string(),
            body: n.as_bytes().to_vec(),
        })
        .collect();
    let archive = zip_files(&files).unwrap();
    let mut zip = zip::ZipArchive::new(std::io::Cursor::new(&archive)).unwrap();
    for name in names {
        let mut body = Vec::new();
        zip.by_name(name).unwrap().read_to_end(&mut body).unwrap();
        assert_eq!(body, name.as_bytes());
        assert_eq!(unix_mode(&archive, name), Some(0o100644));
        let single = zip_single(name, &name.as_bytes().to_vec(), 0o600).unwrap();
        assert_eq!(unix_mode(&single, name), Some(0o100600));
        assert_eq!(unzipped_size(&single), Some(name.len() as u64));
    }
}

#[test]
fn names_are_measured_in_bytes() {
    let body = b"body".to_vec();
    let longest = "\u{e9}".repeat(32767) + "x";
    assert_eq!(longest.len(), 65535);
    let archive = zip_single(&longest, &body, 0o644).unwrap();
    assert_eq!(unix_mode(&archive, &longest), Some(0o100644));
    let longer = "\u{e9}".repeat(32768);
    assert!(zip_single(&longer, &body, 0o644).is_err());
    let files = vec![ArchiveFile {
        name: longer,
        body,
    }];
    assert!(zip_files(&files).is_err());
}

#[test]
fn padded_zip_refuses_a_size_below_its_code() {
    let base = vec![0u8; 1024 * 1024 - 1024];
    assert_eq!(
        build_padded_zip(SynthRuntime::Rust, &base, 1).unwrap_err(),
        "synthetic size 1 MB is too small for the bootstrap base entry (1047552 bytes + overhead); \
         raise this SYNTH_DEFAULT_SIZES_MB entry"
    );
    let smaller = vec![0u8; 1024 * 1024 - 1025];
    assert!(build_padded_zip(SynthRuntime::Python, &smaller, 1).is_ok());
    assert!(build_padded_zip(SynthRuntime::Python, &vec![], 0).is_err());
}

#[test]
fn bootstrap_is_read_back_out_of_its_archive() {
    let archive = zip_single("bootstrap", &b"binary".to_vec(), 0o755).unwrap();
    assert_eq!(bootstrap_from_zip(&archive), Some(b"binary".to_vec()));
    let other = zip_single("other", &b"binary".to_vec(), 0o755).unwrap();
    assert_eq!(bootstrap_from_zip(&other), None);
    assert_eq!(bootstrap_from_zip(&b"no archive".to_vec()), None);
    assert_eq!(bootstrap_label(Arch::X86_64), "rust-hello-x86_64-o3");
}

#[test]
fn image_padding_hits_target_and_is_incompressible() {
    for mb in [1u32, 4] {
        let target = mb as usize * 1024 * 1024;
        let bytes = write_incompressible(target);
        assert_eq!(
            bytes.len(),
            target,
            "{mb}MB padding must be exactly {target} bytes"
        );
        let mut enc = ZlibEncoder::new(Vec::new(), Compression::default());
        enc.write_all(&bytes).unwrap();
        let compressed = enc.finish().unwrap();
        assert!(
            compressed.len() as f64 > bytes.len() as f64 * 0.99,
            "{mb}MB padding compressed to {} of {} bytes (too compressible)",
            compressed.len(),
            bytes.len()
        );
    }
}

/// The generator, one word at a time.
#[test]
fn padding_is_the_words_of_the_generator() {
    let mut state: u64 = 0x9E37_79B9_7F4A_7C15;
    let mut expected = Vec::new();
    for _ in 0..5 {
        state = state.wrapping_add(0x9E37_79B9_7F4A_7C15);
        let mut z = state;
        z = (z ^ (z >> 30)).wrapping_mul(0xBF58_476D_1CE4_E5B9);
        z = (z ^ (z >> 27)).wrapping_mul(0x94D0_49BB_1331_11EB);
        z ^= z >> 31;
        expected.extend_from_slice(&z.to_le_bytes());
    }
    assert_eq!(write_incompressible(40), expected);
    assert_eq!(write_incompressible(13), expected[..13].to_vec());
    assert_eq!(write_incompressible(0), Vec::<u8>::new());
}

#[test]
fn zip_families_match_config() {
    let from_probe = [SynthRuntime::Python.family(), SynthRuntime::Rust.family()];
    assert_eq!(from_probe.as_slice(), SYNTH_ZIP_FAMILIES);
}

#[test]
fn image_families_match_config_in_create_order() {
    let from_probe = [false, true].map(image_family);
    assert_eq!(from_probe.as_slice(), SYNTH_IMAGE_FAMILIES);
    assert_eq!(SYNTH_IMAGE_FAMILIES, ["image-untouched", "image-touched"]);
}

#[test]
fn deployed_name_matches_shared_formatter() {
    assert_eq!(
        synth_function_name(SynthRuntime::Python.family(), 50),
        "lambdabench-synthdl-python-50mb"
    );
}

#[test]
fn sizes_in_range() {
    for mb in SYNTH_DEFAULT_SIZES_MB {
        assert!(
            (1..=MAX_SYNTHETIC_MB).contains(&mb),
            "synthetic size {mb} MB out of range (1..={MAX_SYNTHETIC_MB})"
        );
    }
}

#[test]
fn synthetic_units_are_the_managed_zip_functions() {
    let units = synthetic_units(Arch::Arm64);
    let names: Vec<&str> = units.iter().map(|u| u.function.name.as_str()).collect();
    assert_eq!(names[0], "lambdabench-synthdl-python-1mb");
    assert_eq!(names[4], "lambdabench-synthdl-python-200mb");
    assert_eq!(names[5], "lambdabench-synthdl-rust-1mb");
    assert_eq!(names.len(), 10);
    assert_eq!(units[7].function.runtime, "provided.al2023");
    assert_eq!(units[7].function.handler, "bootstrap");
    assert_eq!(units[2].function.handler, "handler.handler");
    assert_eq!(units[2].function.memory_mb, 512);
    let managed = bencher::config::all_managed_function_names();
    for n in names {
        assert!(managed.contains(&n.to_string()));
    }
    for touch in [false, true] {
        for mb in SYNTH_DEFAULT_SIZES_MB {
            assert!(managed.contains(&image_function_name(touch, mb)));
        }
    }
}

#[test]
fn image_names_and_estimates() {
    assert_eq!(
        image_tag(50, Arch::X86_64, "0a1b2c3d"),
        "synthdl-image-50mb-x86_64-0a1b2c3d"
    );
    assert_eq!(image_platform(Arch::X86_64), "linux/amd64");
    assert_eq!(base_image_estimate(3 * 1024 * 1024 + 7, 2), 1024 * 1024 + 7);
    assert_eq!(base_image_estimate(5, 1), 0);
    assert!(is_zip_baseline("python") && !is_zip_baseline("rust"));
}

/// Compressible content, so that the archive is much smaller than what it holds.
#[test]
fn unzipped_size_sums_uncompressed_entries() {
    let original = vec![0u8; 100_000];
    let archive = zip_single("payload.bin", &original, 0o644).unwrap();
    let unzipped = unzipped_size(&archive).unwrap();
    let compressed = archive.len() as u64;
    assert_eq!(unzipped, original.len() as u64);
    assert!(
        compressed < unzipped,
        "expected the compressed zip ({compressed} B) to be smaller than the unzipped total ({unzipped} B)"
    );
}

#[test]
fn archives_of_files_hold_each_file() {
    let files = vec![
        ArchiveFile {
            name: "a/one.txt".to_string(),
            body: b"one".to_vec(),
        },
        ArchiveFile {
            name: "two.txt".to_string(),
            body: vec![7u8; 1000],
        },
    ];
    let archive = zip_files(&files).unwrap();
    assert_eq!(unzipped_size(&archive), Some(1003));
    let mut zip = zip::ZipArchive::new(std::io::Cursor::new(&archive)).unwrap();
    let mut body = Vec::new();
    zip.by_name("a/one.txt")
        .unwrap()
        .read_to_end(&mut body)
        .unwrap();
    assert_eq!(body, b"one");
    assert_eq!(unzipped_size(&vec![1, 2, 3]), None);
    let twice = vec![
        ArchiveFile {
            name: "same".to_string(),
            body: vec![],
        },
        ArchiveFile {
            name: "same".to_string(),
            body: vec![],
        },
    ];
    assert!(zip_files(&twice).is_err());
}

const MS: u64 = 1_000_000;

/// Back-to-back calls are spaced by the interval: the first is immediate, each
/// later one waits a full interval.
#[test]
fn acquire_spaces_requests_by_interval() {
    let start = 5_000 * MS;
    let mut limiter = RateLimiter::per_second(10, start);
    let mut at = start;
    for _ in 0..5 {
        at = limiter.reserve(at);
    }
    // 5 calls, 4 intervals of 100 ms.
    assert_eq!(at - start, 400 * MS);
}

/// A stall longer than the interval does not bank credit.
#[test]
fn acquire_does_not_burst_after_a_stall() {
    let start = 5_000 * MS;
    let mut limiter = RateLimiter::per_second(10, start);
    assert_eq!(limiter.reserve(start), start);
    let mark = start + 500 * MS;
    assert_eq!(limiter.reserve(mark), mark);
    assert_eq!(limiter.reserve(mark), mark + 100 * MS);
}

#[test]
fn intervals_are_whole_nanoseconds() {
    assert_eq!(RateLimiter::per_second(12, 0).interval_ns, 83_333_333);
    assert_eq!(RateLimiter::per_second(8, 0).interval_ns, 125_000_000);
    assert_eq!(RateLimiter::per_second(1, 9).next_slot_ns, 9);
}
