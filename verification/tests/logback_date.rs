//! Java SimpleDateFormat patterns converted to chrono patterns.

use tracing_config::formatter::logback::date::{convert_pattern, format_time, Timestamp};

#[test]
fn test_simple_conversion() {
    assert_eq!(convert_pattern("yyyy-MM-dd"), "%Y-%m-%d");
}

#[test]
fn test_time_conversion() {
    assert_eq!(convert_pattern("HH:mm:ss"), "%H:%M:%S");
}

#[test]
fn test_milliseconds() {
    let result = convert_pattern("HH:mm:ss.SSS");
    assert_eq!(result, "%H:%M:%S%.3f", "got: {}", result);
}

#[test]
fn test_timezone() {
    assert_eq!(convert_pattern("HH:mm:ssXXX"), "%H:%M:%S%:z");
}

#[test]
fn test_full_logback() {
    let result = convert_pattern("yyyy-MM-dd'T'HH:mm:ss.SSSXXX");
    assert_eq!(result, "%Y-%m-%dT%H:%M:%S%.3f%:z", "got: {}", result);
}

#[test]
fn test_literal_in_quotes() {
    assert_eq!(
        convert_pattern("yyyy-MM-dd'T'HH:mm:ss"),
        "%Y-%m-%dT%H:%M:%S"
    );
}

#[test]
fn test_format_time() {
    let result = format_time("HH:mm:ss", Timestamp { millis: 52_200_000, offset_secs: 0 }).unwrap();
    // Should be something like "14:30:00"
    assert!(result.matches(':').count() == 2);
}

#[test]
fn test_convert_empty_pattern() {
    assert_eq!(convert_pattern(""), "");
}

#[test]
fn test_convert_single_char() {
    assert_eq!(convert_pattern("y"), "%Y");
    assert_eq!(convert_pattern("M"), "%m");
    assert_eq!(convert_pattern("d"), "%d");
    assert_eq!(convert_pattern("H"), "%H");
    assert_eq!(convert_pattern("m"), "%M");
    assert_eq!(convert_pattern("s"), "%S");
}

#[test]
fn test_convert_lowercase() {
    // Lowercase should also work
    assert_eq!(convert_pattern("yyyy"), "%Y");
    assert_eq!(convert_pattern("ss"), "%S");
}

#[test]
fn test_date_with_percent_prefix() {
    // Patterns that already have % prefix should be handled
    let result = convert_pattern("%Y-%m-%d");
    assert_eq!(result, "%Y-%m-%d");
}

#[test]
fn test_date_with_escaped_text() {
    // Single quotes for literal text
    assert_eq!(convert_pattern("yyyy'年'MM'月'dd'日'"), "%Y年%m月%d日");
}

#[test]
fn test_date_format_with_dots() {
    // Dots are preserved as literals
    assert_eq!(convert_pattern("yyyy.MM.dd"), "%Y.%m.%d");
}

#[test]
fn quoted_text_renders_exactly_itself() {
    assert_eq!(convert_pattern("'T'"), "T");
    assert_eq!(convert_pattern("'100%'"), "100%%");
    assert_eq!(convert_pattern("HH'h, 50% off'"), "%Hh, 50%% off");
    let ts = Timestamp { millis: 52_200_000, offset_secs: 0 };
    assert_eq!(format_time("'100%'", ts).unwrap(), "100%");
    assert_eq!(format_time("HH' at 5%'", ts).unwrap(), "14 at 5%");
}

#[test]
fn strftime_syntax_passes_through() {
    for p in ["%H:%M:%S%.3f", "%Y-%m-%dT%H:%M:%S%.3f%:z", "%:z", "%d/%m/%Y %H:%M", "+%S."] {
        assert_eq!(convert_pattern(p), p);
    }
    let once = convert_pattern("HH:mm:ss.SSS");
    assert_eq!(once, "%H:%M:%S%.3f");
    assert_eq!(convert_pattern(&once), once);
    let full = convert_pattern("yyyy-MM-dd'T'HH:mm:ss.SSSXXX");
    assert_eq!(convert_pattern(&full), full);
}
