//! Event data collection, exception frames and the formatter's scan of its
//! tokens.

use tracing_config::formatter::logback::date::Timestamp;
use tracing_config::formatter::logback::lexer::scan;
use tracing_config::formatter::logback::renderer::{
    exception_write, kvp_write, strip_message_quotes, EventData, LogbackFormatter, TimestampCache,
};

#[test]
fn test_simple_pattern() {
    let tokens = vec![tracing_config::formatter::logback::Token::Literal("hello".to_string())];
    let formatter = LogbackFormatter::new(tokens, 1);
    assert!(!formatter.has_exception());
    assert!(!formatter.has_nopex());
}

#[test]
fn test_has_exception_token_detects_ex() {
    let tokens = scan("%msg %ex").unwrap();
    let f = LogbackFormatter::new(tokens, 1);
    assert!(f.has_exception());
    assert!(!f.has_nopex());
}

#[test]
fn test_has_exception_token_detects_nopex() {
    let tokens = scan("%msg %nopex").unwrap();
    let f = LogbackFormatter::new(tokens, 1);
    assert!(f.has_exception());
    assert!(f.has_nopex());
}

#[test]
fn test_has_exception_token_false() {
    let tokens = scan("%msg %level").unwrap();
    let f = LogbackFormatter::new(tokens, 1);
    assert!(!f.has_exception());
    assert!(!f.has_nopex());
}

#[test]
fn test_strip_message_quotes() {
    assert_eq!(strip_message_quotes("\"hello\""), "hello");
    assert_eq!(strip_message_quotes("hello"), "hello");
    assert_eq!(strip_message_quotes("\"\""), "");
    assert_eq!(strip_message_quotes(""), "");
}

#[test]
fn test_event_data_kvp() {
    let data = EventData {
        message: "hi".to_string(),
        fields: vec![("user_id".into(), "42".into())],
        error_chain: vec![],
        marker: None,
    };
    let mut buf: Vec<char> = Vec::new();
    kvp_write(&data, &mut buf);
    assert_eq!(buf.iter().collect::<String>(), "user_id=42");
}

#[test]
fn test_exception_write() {
    let data = EventData {
        message: String::new(),
        fields: vec![],
        error_chain: vec!["err1".to_string(), "err2".to_string()],
        marker: None,
    };
    let mut buf: Vec<char> = Vec::new();
    exception_write(&data, None, false, &mut buf);
    assert_eq!(buf.iter().collect::<String>(), "err1\nCaused by: err2");
}

#[test]
fn test_timestamp_cache() {
    let mut cache = TimestampCache::new();
    let now = Timestamp { millis: 1_700_000_000_000, offset_secs: 3600 };
    let s1 = cache.get(now, "%Y-%m-%d").unwrap();
    let s2 = cache.get(now, "%Y-%m-%d").unwrap();
    assert_eq!(s1, s2);
}
