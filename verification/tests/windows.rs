//! Tests for console ANSI support.

use tracing_config::windows::enable_ansi_escapes;

#[test]
fn test_enable_ansi_escapes_non_windows() {
    assert!(enable_ansi_escapes().is_ok());
}

#[test]
fn test_enable_ansi_escapes_windows() {
    assert!(enable_ansi_escapes().is_ok());
}
