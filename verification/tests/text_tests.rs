use perf_sight::logmetrics::{compile_log_metrics, extract_log_metric, parse_decimal_milli};
use perf_sight::models::LogMetricConfig;
use perf_sight::naming::{compact_time_id, safe_slug};
use perf_sight::text::{dec_string, fmt_one_dec, fmt_two_dec, round_pct};

#[test]
fn safe_slug_maps_and_trims() {
    assert_eq!(safe_slug("My Report: Q1/2025", 60), "My_Report__Q1_2025");
    assert_eq!(safe_slug("__hello__", 60), "hello");
    assert_eq!(safe_slug("___", 10), "report");
    assert_eq!(safe_slug("", 10), "report");
    // truncation happens before trimming
    assert_eq!(safe_slug("abcdefgh", 3), "abc");
    // a zero cap still admits one character
    assert_eq!(safe_slug("xyz", 0), "x");
}

#[test]
fn compact_time_id_keeps_digits_t_z() {
    assert_eq!(
        compact_time_id("2025-12-19T13:45:02.123Z"),
        "20251219T134502123Z"
    );
    assert_eq!(compact_time_id("abc"), "unknown_time");
    assert_eq!(compact_time_id(""), "unknown_time");
}

#[test]
fn decimal_parsing_to_milli() {
    assert_eq!(parse_decimal_milli("12.34"), Some(12_340));
    assert_eq!(parse_decimal_milli("7"), Some(7_000));
    assert_eq!(parse_decimal_milli("-3.5"), Some(-3_500));
    assert_eq!(parse_decimal_milli("0.001"), Some(1));
    // truncated beyond three fractional digits
    assert_eq!(parse_decimal_milli("1.23456"), Some(1_234));
    assert_eq!(parse_decimal_milli("12."), Some(12_000));
    assert_eq!(parse_decimal_milli(""), None);
    assert_eq!(parse_decimal_milli("-"), None);
    assert_eq!(parse_decimal_milli("1.2.3"), None);
    assert_eq!(parse_decimal_milli("abc"), None);
    assert_eq!(parse_decimal_milli("12a"), None);
    assert_eq!(parse_decimal_milli(".5"), None);
    // more than fifteen integer digits is out of range
    assert_eq!(parse_decimal_milli("1234567890123456"), None);
    assert_eq!(parse_decimal_milli("999999999999999"), Some(999_999_999_999_999_000));
}

#[test]
fn decimal_rendering() {
    assert_eq!(dec_string(0), "0");
    assert_eq!(dec_string(7), "7");
    assert_eq!(dec_string(12345), "12345");
    assert_eq!(fmt_one_dec(40_000), "40.0");
    assert_eq!(fmt_one_dec(12_345), "12.3");
    assert_eq!(fmt_one_dec(12_350), "12.4");
    assert_eq!(fmt_two_dec(300_000), "300.00");
    assert_eq!(fmt_two_dec(12_345), "12.35");
    assert_eq!(round_pct(1, 3), 33);
    assert_eq!(round_pct(2, 3), 67);
    assert_eq!(round_pct(0, 5), 0);
    assert_eq!(round_pct(5, 5), 100);
}

#[test]
fn log_metric_extraction_end_to_end() {
    let configs = vec![
        LogMetricConfig {
            name: "Inference Time".to_string(),
            pattern: "Inference Time: ([0-9.]+) ms".to_string(),
            unit: Some("ms".to_string()),
            target_pid: None,
        },
        LogMetricConfig {
            name: "broken".to_string(),
            pattern: "(unclosed".to_string(),
            unit: None,
            target_pid: None,
        },
    ];
    let compiled = compile_log_metrics(configs);
    // the invalid pattern is dropped at compile time
    assert_eq!(compiled.len(), 1);
    let hit = extract_log_metric(&compiled[0], "Inference Time: 12.5 ms", 4321)
        .expect("pattern matches");
    assert_eq!(hit, (4321, 12_500));
    assert_eq!(extract_log_metric(&compiled[0], "no match here", 4321), None);
}

#[test]
fn log_metric_pid_override() {
    let configs = vec![LogMetricConfig {
        name: "fps".to_string(),
        pattern: "fps=([0-9]+)".to_string(),
        unit: None,
        target_pid: Some(99),
    }];
    let compiled = compile_log_metrics(configs);
    let hit = extract_log_metric(&compiled[0], "fps=60", 4321).expect("pattern matches");
    assert_eq!(hit, (99, 60_000));
}
