//! Logback logger-name abbreviation.

use tracing_config::formatter::logback::abbreviator::abbreviate;

#[test]
fn test_no_abbreviation() {
    let name = "INFO";
    assert_eq!(abbreviate(name, 20), "INFO");
}

#[test]
fn test_max_zero_returns_last_segment() {
    let name = "my_app::db::pool";
    assert_eq!(abbreviate(name, 0), "pool");
}

#[test]
fn test_simple_segment() {
    let name = "my_app";
    assert_eq!(abbreviate(name, 10), "my_app");
}

#[test]
fn test_logback_example() {
    // my_app::service::user_handler, n=20 → abbreviated but ends with user_handler
    let name = "my_app::service::user_handler";
    let result = abbreviate(name, 20);
    assert!(
        result.ends_with("user_handler"),
        "expected ending with user_handler, got: {}",
        result
    );
    assert!(!result.is_empty());
}

#[test]
fn test_empty_name() {
    assert_eq!(abbreviate("", 20), "");
}

#[test]
fn test_single_long_segment() {
    let name = "very_long_segment_name_here";
    let result = abbreviate(name, 10);
    assert_eq!(result.len(), 10);
}

#[test]
fn test_exact_length() {
    let name = "INFO";
    assert_eq!(abbreviate(name, 4), "INFO");
}

#[test]
fn test_logback_example_deterministic() {
    // Test that abbreviation works - last segment is always preserved
    let name = "my_app::service::user_handler";
    let result = abbreviate(name, 20);
    // Last segment must be preserved
    assert!(
        result.ends_with("user_handler"),
        "expected ending with user_handler, got: {}",
        result
    );
    assert!(result.len() <= 20);
    // Should contain dots separating abbreviated segments
    assert!(result.contains('.'));
}

#[test]
fn test_abbreviate_multiple_segments() {
    // Three segments abbreviated to fit
    let name = "com::example::my_app::handler";
    let result = abbreviate(name, 15);
    // Last: "handler" = 7 chars
    // Available: 15 - 7 - 1 = 7 chars for prefix
    // "com" (3) + "." (1) + "e" (1) + "." (1) + "m" (1) = 7
    // Result: "c.e.m.handler" = 14 chars ≤ 15
    assert!(result.ends_with("handler"));
    assert!(result.len() <= 15);
}

#[test]
fn test_no_colon_separator() {
    // Single segment without ::
    let name = "single_logger";
    let result = abbreviate(name, 10);
    assert_eq!(result.len(), 10);
}

#[test]
fn test_last_segment_only_if_max_zero() {
    let name = "com::example::my_app";
    assert_eq!(abbreviate(name, 0), "my_app");
}

#[test]
fn documented_example_gives_initials() {
    assert_eq!(abbreviate("my_app::service::user_handler", 20), "m.s.user_handler");
}

#[test]
fn segments_are_cut_only_as_far_as_needed() {
    assert_eq!(abbreviate("com::example::my_app::handler", 15), "c.e.m.handler");
    assert_eq!(abbreviate("com::example::my_app::handler", 18), "c.e.my_app.handler");
    assert_eq!(abbreviate("com::example::my_app::handler", 24), "c.example.my_app.handler");
    assert_eq!(abbreviate("com::example::my_app::handler", 29), "com.example.my_app.handler");
}

#[test]
fn all_leading_segments_cut_when_nothing_fits() {
    assert_eq!(abbreviate("alpha::beta::gamma", 6), "a.b.gamma");
}

#[test]
fn long_last_segment_is_truncated() {
    assert_eq!(abbreviate("a::handler", 4), "hand");
}
