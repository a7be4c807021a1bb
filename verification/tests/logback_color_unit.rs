//! ANSI colours.

use tracing_config::formatter::logback::color::{level_color, with_color, Color};
use tracing_config::level::Level;

#[test]
fn test_color_codes() {
    assert_eq!(Color::Red.code(), "\x1b[31m");
    assert_eq!(Color::BoldGreen.code(), "\x1b[1;32m");
}

#[test]
fn test_level_color() {
    assert_eq!(level_color(&Level::Error), Color::BoldRed);
    assert_eq!(level_color(&Level::Warn), Color::Yellow);
    assert_eq!(level_color(&Level::Info), Color::Blue);
}

#[test]
fn test_with_color() {
    let colored = with_color(Color::Red, "test");
    assert!(colored.starts_with("\x1b[31m"));
    assert!(colored.ends_with("\x1b[0m"));
}

#[test]
fn test_color_from_str() {
    assert_eq!(Color::parse("red"), Some(Color::Red));
    assert_eq!(Color::parse("bold_green"), Some(Color::BoldGreen));
    assert_eq!(Color::parse("unknown"), None);
}
