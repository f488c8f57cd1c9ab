//! Reading report lines.
use bencher::report::{
    check_number, find_report_line, parse_report, parse_signed, parse_whole, report_from_captures,
    show_number, Millis,
};

/// The number that a measurement spells.
fn ms(m: &Millis) -> f64 {
    m.text.parse::<f64>().expect("a measurement is a number")
}
#[test]
fn parses_cold_report() {
    let log = "START RequestId: abc Version: $LATEST\n\
        END RequestId: abc\n\
        REPORT RequestId: 8f7c-1\tDuration: 12.34 ms\tBilled Duration: 13 ms\tMemory Size: 512 MB\tMax Memory Used: 90 MB\tInit Duration: 187.65 ms\n";
    let r = parse_report(log).unwrap();
    assert_eq!(r.request_id, "8f7c-1");
    assert!((ms(&r.duration_ms) - 12.34).abs() < 1e-9);
    assert_eq!(ms(&r.billed_ms) as i64, 13);
    assert_eq!(r.memory_size_mb, 512);
    assert_eq!(r.max_memory_used_mb, 90);
    assert_eq!(r.init_ms.as_ref().map(|x| ms(x) as i64), Some(187));
    assert!(r.restore_ms.is_none());
    assert!(r.is_cold());
}

#[test]
fn parses_warm_report_without_init() {
    let log = "REPORT RequestId: 9a\tDuration: 1.01 ms\tBilled Duration: 2 ms\tMemory Size: 128 MB\tMax Memory Used: 40 MB\n";
    let r = parse_report(log).unwrap();
    assert!(r.init_ms.is_none());
    assert!(r.restore_ms.is_none());
    assert!(!r.is_cold());
    assert_eq!(r.memory_size_mb, 128);
}

/// A SnapStart cold (restored) invocation reports `Restore Duration` instead
/// of `Init Duration`. It must be detected as cold via `restore_ms`, with
/// `init_ms` absent.
#[test]
fn parses_snapstart_restore_report() {
    let log = "REPORT RequestId: 7b\tDuration: 22.5 ms\tBilled Duration: 90 ms\tMemory Size: 512 MB\tMax Memory Used: 180 MB\tRestore Duration: 245.10 ms\n";
    let r = parse_report(log).unwrap();
    assert!(r.init_ms.is_none());
    assert_eq!(r.restore_ms.as_ref().map(|x| ms(x) as i64), Some(245));
    assert!(r.is_cold());
    assert_eq!(r.memory_size_mb, 512);
}

/// A cold REPORT line with trailing fields after `Init Duration` (e.g. the
/// X-Ray segment a traced function appends) must still be detected as cold:
/// the cold marker is located independently of its position in the line.
#[test]
fn parses_cold_report_with_trailing_xray_field() {
    let log = "REPORT RequestId: 8f7c-1\tDuration: 12.34 ms\tBilled Duration: 13 ms\tMemory Size: 512 MB\tMax Memory Used: 90 MB\tInit Duration: 187.65 ms\tXRAY TraceId: 1-abc\tSegmentId: def\tSampled: true\n";
    let r = parse_report(log).unwrap();
    assert_eq!(r.init_ms.as_ref().map(|x| ms(x) as i64), Some(187));
    assert!(r.restore_ms.is_none());
    assert!(r.is_cold());
    assert_eq!(r.memory_size_mb, 512);
    assert_eq!(r.max_memory_used_mb, 90);
}

/// Likewise for a SnapStart restore line with trailing fields after
/// `Restore Duration`.
#[test]
fn parses_snapstart_restore_with_trailing_field() {
    let log = "REPORT RequestId: 7b\tDuration: 22.5 ms\tBilled Duration: 90 ms\tMemory Size: 512 MB\tMax Memory Used: 180 MB\tRestore Duration: 245.10 ms\tXRAY TraceId: 1-abc\n";
    let r = parse_report(log).unwrap();
    assert!(r.init_ms.is_none());
    assert_eq!(r.restore_ms.as_ref().map(|x| ms(x) as i64), Some(245));
    assert!(r.is_cold());
}

/// The live SnapStart REPORT line carries BOTH `Restore Duration` and
/// `Billed Restore Duration` (verified against eu-central-1 output). The
/// parser must extract the real restore time, never the billed one, and must
/// not depend on which field the platform prints first.
#[test]
fn parses_snapstart_restore_ignoring_billed_restore_duration() {
    // Real field order: Restore Duration before Billed Restore Duration.
    let log = "REPORT RequestId: 0e5c8424\tDuration: 159.87 ms\tBilled Duration: 278 ms\tMemory Size: 1024 MB\tMax Memory Used: 88 MB\tRestore Duration: 562.43 ms\tBilled Restore Duration: 118 ms\n";
    let r = parse_report(log).unwrap();
    assert_eq!(r.restore_ms.as_ref().map(|x| ms(x) as i64), Some(562));
    assert!(r.init_ms.is_none());
    assert!(r.is_cold());

    // Same fields, billed printed FIRST: the result must be identical, since
    // selection is by the `billed` prefix, not match position.
    let swapped = "REPORT RequestId: 0e5c8424\tDuration: 159.87 ms\tBilled Duration: 278 ms\tMemory Size: 1024 MB\tMax Memory Used: 88 MB\tBilled Restore Duration: 118 ms\tRestore Duration: 562.43 ms\n";
    let r2 = parse_report(swapped).unwrap();
    assert_eq!(r2.restore_ms.as_ref().map(|x| ms(x) as i64), Some(562));
}

/// AWS emits no `Billed Init Duration` field today, but if it ever adds one
/// (as it did for Restore Duration), the parser must extract the real init
/// time, never the billed one, independent of field order, matching the
/// restore path. Guards against a future platform change silently recording
/// the billed value as the init cost.
#[test]
fn parses_init_ignoring_hypothetical_billed_init_duration() {
    let log = "REPORT RequestId: abc\tDuration: 12.34 ms\tBilled Duration: 13 ms\tMemory Size: 512 MB\tMax Memory Used: 90 MB\tInit Duration: 187.65 ms\tBilled Init Duration: 999 ms\n";
    let r = parse_report(log).unwrap();
    assert_eq!(r.init_ms.as_ref().map(|x| ms(x) as i64), Some(187));
    assert!(r.restore_ms.is_none());
    assert!(r.is_cold());

    // Same fields, billed printed FIRST: the result must be identical, since
    // selection is by the `billed` prefix, not match position.
    let swapped = "REPORT RequestId: abc\tDuration: 12.34 ms\tBilled Duration: 13 ms\tMemory Size: 512 MB\tMax Memory Used: 90 MB\tBilled Init Duration: 999 ms\tInit Duration: 187.65 ms\n";
    let r2 = parse_report(swapped).unwrap();
    assert_eq!(r2.init_ms.as_ref().map(|x| ms(x) as i64), Some(187));
}

#[test]
fn errors_without_report_line() {
    assert!(parse_report("START\nEND\n").is_err());
}

#[test]
fn the_last_marked_line_is_read() {
    let log = "REPORT RequestId: forged by a handler\r\nnoise\n\
        REPORT RequestId: 9a\tDuration: 1.01 ms\tBilled Duration: 2 ms\tMemory Size: 128 MB\tMax Memory Used: 40 MB\r\n\r\n";
    let line = find_report_line(log).unwrap();
    assert!(line.starts_with("REPORT RequestId: 9a"));
    assert!(line.ends_with("40 MB"));
    assert_eq!(parse_report(log).unwrap().request_id, "9a");
    assert_eq!(find_report_line("nothing here"), None);
    // A carriage return at the very end of the tail belongs to the line.
    assert_eq!(
        find_report_line("REPORT RequestId: x\r"),
        Some("REPORT RequestId: x\r".to_string())
    );
}

#[test]
fn complaints_name_what_is_wrong() {
    assert_eq!(
        parse_report("START\nEND\n").unwrap_err(),
        "no REPORT line in log tail:\nSTART\nEND\n"
    );
    assert_eq!(
        parse_report("REPORT RequestId: zz\n").unwrap_err(),
        "REPORT line did not match expected format: REPORT RequestId: zz"
    );
    let bad = "REPORT RequestId: 9a\tDuration: 1.0.1 ms\tBilled Duration: 2 ms\tMemory Size: 128 MB\tMax Memory Used: 40 MB";
    assert_eq!(
        parse_report(bad).unwrap_err(),
        format!("parsing dur as f64 in REPORT: {bad}")
    );
    let init = "REPORT RequestId: 9a\tDuration: 1 ms\tBilled Duration: 2 ms\tMemory Size: 128 MB\tMax Memory Used: 40 MB\tInit Duration: . ms";
    assert_eq!(
        parse_report(init).unwrap_err(),
        format!("parsing Init Duration: {init}")
    );
    let restore = "REPORT RequestId: 9a\tDuration: 1 ms\tBilled Duration: 2 ms\tMemory Size: 128 MB\tMax Memory Used: 40 MB\tRestore Duration: 1..2 ms";
    assert_eq!(
        parse_report(restore).unwrap_err(),
        format!("parsing Restore Duration: {restore}")
    );
    let huge = "REPORT RequestId: 9a\tDuration: 1 ms\tBilled Duration: 2 ms\tMemory Size: 99999999999999999999 MB\tMax Memory Used: 40 MB";
    assert_eq!(
        parse_report(huge).unwrap_err(),
        format!("parsing memsize as i64 in REPORT: {huge}")
    );
}

#[test]
fn numbers_are_digits_with_at_most_one_point() {
    for good in ["0", "12.34", ".5", "5.", "007"] {
        assert!(check_number(good), "{good}");
        assert!(good.parse::<f64>().is_ok());
    }
    for bad in ["", ".", "1.2.3", "..", "1e5", "-1", " 1", "1,2"] {
        assert!(!check_number(bad), "{bad}");
    }
    assert_eq!(parse_whole("9223372036854775807"), Some(i64::MAX));
    assert_eq!(parse_whole("9223372036854775808"), None);
    assert_eq!(parse_whole("0042"), Some(42));
    assert_eq!(parse_whole(""), None);
    assert_eq!(parse_whole("4x"), None);
    assert_eq!(parse_signed("-9223372036854775808"), Some(i64::MIN));
    assert_eq!(parse_signed("-9223372036854775809"), None);
    assert_eq!(parse_signed("-7"), Some(-7));
    assert_eq!(parse_signed("200"), Some(200));
    assert_eq!(parse_signed("-"), None);
    assert_eq!(parse_signed("200.0"), None);
}

fn groups(texts: &[Option<&str>]) -> Vec<Option<String>> {
    texts.iter().map(|t| t.map(|s| s.to_string())).collect()
}

#[test]
fn captures_decide_the_report() {
    let fields = Some(groups(&[
        Some("whole"),
        Some("id-1"),
        Some("1.5"),
        Some("2"),
        Some("128"),
        Some("64"),
    ]));
    let billed_first = vec![
        groups(&[Some("a"), Some("Billed "), Some("9")]),
        groups(&[Some("b"), None, Some("7.25")]),
    ];
    let r = report_from_captures("line", &fields, &vec![], &billed_first).unwrap();
    assert_eq!(r.request_id, "id-1");
    assert!(r.init_ms.is_none());
    assert_eq!(r.restore_ms.unwrap().text, "7.25");
    assert_eq!(r.memory_size_mb, 128);
    assert_eq!(r.max_memory_used_mb, 64);
    let only_billed = vec![groups(&[Some("a"), Some("Billed "), Some("9")])];
    let warm = report_from_captures("line", &fields, &only_billed, &only_billed).unwrap();
    assert!(!warm.is_cold());
    let short = Some(groups(&[Some("whole"), Some("id-1"), Some("1.5")]));
    assert_eq!(
        report_from_captures("line", &short, &vec![], &vec![]).unwrap_err(),
        "missing field billed in REPORT: line"
    );
    let nameless = Some(groups(&[Some("whole"), None]));
    assert_eq!(
        report_from_captures("line", &nameless, &vec![], &vec![]).unwrap_err(),
        "missing RequestId in REPORT: line"
    );
}

#[test]
fn numbers_of_everyday_size_have_one_form() {
    for (spelled, shown) in [
        ("190.00", "190.0"),
        ("187.65", "187.65"),
        ("007.50", "7.5"),
        ("13", "13.0"),
        (".5", "0.5"),
        ("5.", "5.0"),
        ("0", "0.0"),
        ("100", "100.0"),
        ("0.0001", "0.0001"),
        ("0.00012", "0.00012"),
        ("123456789012345", "123456789012345.0"),
        ("12345678.9012345", "12345678.9012345"),
    ] {
        assert_eq!(show_number(spelled), shown);
        assert_eq!(shown, format!("{:?}", spelled.parse::<f64>().unwrap()));
    }
}

#[test]
fn other_numbers_are_shown_as_they_are_spelled() {
    for spelled in ["0.00009", "00.000010", "1234567890123456", "0.1234567890123456"] {
        assert_eq!(show_number(spelled), spelled);
    }
}
