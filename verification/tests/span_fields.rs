//! The span field store behind `%X{key}`.

use tracing_config::span_fields::SpanFieldStore;

#[test]
fn store_get_and_iter() {
    let mut s = SpanFieldStore::default();
    s.record("user_id", "42".into());
    s.record("trace", "abc".into());
    assert_eq!(s.get("user_id"), Some("42"));
    assert_eq!(s.get("missing"), None);
    let collected: Vec<_> = s.iter();
    assert_eq!(
        collected,
        vec![("trace".to_string(), "abc".to_string()), ("user_id".to_string(), "42".to_string())]
    );
}

#[test]
fn store_record_replaces_value() {
    let mut s = SpanFieldStore::default();
    s.record("k", "1".into());
    s.record("a", "x".into());
    s.record("k", "2".into());
    assert_eq!(s.get("k"), Some("2"));
    assert_eq!(s.get("a"), Some("x"));
    assert_eq!(s.iter().len(), 2);
}

#[test]
fn store_orders_keys_by_code_point() {
    let mut s = SpanFieldStore::default();
    s.record("b", "2".into());
    s.record("B", "1".into());
    s.record("ab", "3".into());
    s.record("a", "4".into());
    let keys: Vec<String> = s.iter().into_iter().map(|(k, _)| k).collect();
    assert_eq!(keys, vec!["B", "a", "ab", "b"]);
}

#[test]
fn a_sequence_of_records_lists_each_key_once_with_its_last_value() {
    let mut s = SpanFieldStore::default();
    s.record("user_id", "42".to_string());
    s.record("trace", "abc".to_string());
    s.record("b", "1".to_string());
    s.record("user_id", "43".to_string());
    s.record("b", "2".to_string());
    let pairs = s.iter();
    assert_eq!(
        pairs,
        vec![
            ("b".to_string(), "2".to_string()),
            ("trace".to_string(), "abc".to_string()),
            ("user_id".to_string(), "43".to_string()),
        ]
    );
    assert_eq!(s.get("user_id"), Some("43"));
    assert_eq!(s.get("missing"), None);
}
