//! Log4j dot-notation abbreviation.

use tracing_config::formatter::log4j::abbreviator::abbreviate;

#[test]
fn depth_zero_returns_last_segment() {
    assert_eq!(abbreviate("com.example.foo.Bar", 0), "Bar");
}

#[test]
fn depth_one_abbreviates_all_but_last() {
    assert_eq!(abbreviate("com.example.foo.Bar", 1), "c.e.f.Bar");
}

#[test]
fn depth_two_keeps_last_two_segments() {
    // "com.example.foo.Bar" with depth=2 keeps the last two
    // segments (foo.Bar) intact and abbreviates the leading
    // two (com.example) to their first letter.
    assert_eq!(abbreviate("com.example.foo.Bar", 2), "c.e.foo.Bar");
}

#[test]
fn single_segment_passes_through() {
    assert_eq!(abbreviate("Bar", 1), "Bar");
    assert_eq!(abbreviate("Bar", 0), "Bar");
}

#[test]
fn depth_larger_than_segments_keeps_everything() {
    assert_eq!(abbreviate("a.b.c", 10), "a.b.c");
}

#[test]
fn rust_module_path_uses_dot_output() {
    assert_eq!(abbreviate("my::app::service", 1), "m.a.service");
}

#[test]
fn empty_segment_is_preserved() {
    assert_eq!(abbreviate("a..b", 0), "b");
    assert_eq!(abbreviate("a..b", 1), "a..b");
}
