//! Escaping and truncation of the log4j engine.

use tracing_config::formatter::log4j::lexer::EscapeMode;
use tracing_config::formatter::log4j::renderer::{escape, truncate};

#[test]
fn escape_html_replaces_specials() {
    assert_eq!(
        escape("<a href=\"x\">&", EscapeMode::Html),
        "&lt;a href=&quot;x&quot;&gt;&amp;"
    );
}

#[test]
fn escape_json_handles_quotes_and_control_chars() {
    let s = "a\"b\nc\td";
    let out = escape(s, EscapeMode::Json);
    assert_eq!(out, "a\\\"b\\nc\\td");
}

#[test]
fn truncate_respects_char_boundaries() {
    let s = "中文汉字字符";
    assert_eq!(truncate(s, 4), "中");
    assert_eq!(truncate(s, 7), "中文");
}

#[test]
fn truncate_no_op_when_short() {
    assert_eq!(truncate("hi", 10), "hi");
}
