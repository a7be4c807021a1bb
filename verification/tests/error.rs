//! Tests for error types.

use tracing_config::error::ConfigError;
use tracing_config::formatter::log4j::lexer::scan as log4j_scan;
use tracing_config::formatter::logback::lexer::scan as logback_scan;

#[test]
fn test_invalid_config_error() {
    let err = ConfigError::InvalidConfig("test error".into());
    assert!(err.message().contains("test error"));
}

#[test]
fn test_unknown_appender_kind_error() {
    let err = ConfigError::UnknownAppenderKind {
        kind: "unknown".into(),
    };
    assert!(err.message().contains("unknown"));
}

#[test]
fn test_unknown_formatter_type_error() {
    let err = ConfigError::UnknownFormatterType {
        typ: "custom".into(),
    };
    assert!(err.message().contains("custom"));
}

#[test]
fn test_pattern_parse_error() {
    let err = ConfigError::PatternParse {
        message: "invalid pattern".into(),
        position: 10,
    };
    assert!(err.message().contains("10"));
    assert!(err.message().contains("invalid pattern"));
}

#[test]
fn test_no_config_error() {
    let err = ConfigError::NoConfig;
    assert!(err.message().contains("not found"));
}

#[test]
fn test_rolling_missing_dir_error() {
    let err = ConfigError::RollingMissingDir;
    assert!(err.message().contains("dir"));
}

fn parse_error_position(r: Result<Vec<impl std::fmt::Debug>, ConfigError>) -> usize {
    match r {
        Err(ConfigError::PatternParse { position, .. }) => position,
        other => panic!("expected a pattern parse error, got {other:?}"),
    }
}

#[test]
fn pattern_error_position_counts_bytes() {
    let ascii = parse_error_position(logback_scan("e%Z"));
    let two_byte = parse_error_position(logback_scan("é%Z"));
    assert_eq!(two_byte, ascii + 1);
    let ascii = parse_error_position(logback_scan("ab%Z"));
    let wide = parse_error_position(logback_scan("日本%Z"));
    assert_eq!(wide, ascii + 4);
}

#[test]
fn log4j_pattern_error_position_counts_bytes() {
    let ascii = parse_error_position(log4j_scan("e%Q"));
    let two_byte = parse_error_position(log4j_scan("é%Q"));
    assert_eq!(two_byte, ascii + 1);
}
