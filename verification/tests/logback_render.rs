//! Rendering of events with logback patterns: exception chains, `%clr`,
//! span fields through `%X{key}` and event fields through `%kvp`.

use tracing_config::formatter::logback::color::Color;
use tracing_config::formatter::logback::date::Timestamp;
use tracing_config::formatter::logback::renderer::{
    EventContext, EventData, EventVisitor, SpanContext, TimestampCache,
};
use tracing_config::formatter::logback::{scan, Keyword, LogbackFormatter, Token};
use tracing_config::level::Level;
use tracing_config::span_fields::SpanFieldStore;

fn context(level: Level) -> EventContext {
    EventContext {
        level,
        target: "my_app::service".to_string(),
        file: Some("src/main.rs".to_string()),
        line: Some(42),
        thread_name: "main".to_string(),
        span: None,
        relative_millis: 1234,
        now: Timestamp { millis: 0, offset_secs: 0 },
    }
}

fn render(pattern: &str, ev: &EventContext, data: &EventData) -> String {
    let f = LogbackFormatter::new(scan(pattern).unwrap(), 4242);
    let mut cache = TimestampCache::new();
    f.format_event(&mut cache, ev, data).unwrap()
}

fn event(message: &str) -> EventVisitor {
    let mut v = EventVisitor::default();
    v.record_debug("message", message.to_string());
    v
}

#[test]
fn exception_renders_cause_chain() {
    let ev = context(Level::Error);
    let mut first = event("first event");
    first.record_error("error", vec!["operation failed".to_string()], "operation failed".to_string());
    let out1 = render("%level %msg%n%ex", &ev, &EventData::collect(first));
    let mut chained = event("chained event");
    chained.record_error(
        "error",
        vec!["outer".to_string(), "inner".to_string()],
        "outer".to_string(),
    );
    let out2 = render("%level %msg%n%ex", &ev, &EventData::collect(chained));
    let out = out1 + &out2;
    assert!(out.contains("operation failed"), "got: {}", out);
    assert!(out.contains("outer"), "got: {}", out);
    assert!(out.contains("inner"), "got: {}", out);
    assert!(out.contains("Caused by"), "got: {}", out);
}

#[test]
fn nopex_suppresses_implicit_exception() {
    let ev = context(Level::Error);
    let mut v = event("should not show error text");
    v.record_error("error", vec!["boom".to_string()], "boom".to_string());
    let out = render("%level %msg%n%nopex", &ev, &EventData::collect(v));
    assert!(!out.contains("boom"), "got: {}", out);
    assert!(!out.contains("Caused by"), "got: {}", out);
}

#[test]
fn exception_depth_limit() {
    let ev = context(Level::Error);
    let mut v = event("event");
    v.record_error(
        "error",
        vec!["frame1".to_string(), "frame2".to_string(), "frame3".to_string()],
        "frame1".to_string(),
    );
    let out = render("%msg|%ex{1}", &ev, &EventData::collect(v));
    assert!(out.contains("frame1"), "got: {}", out);
    assert!(!out.contains("frame2"), "got: {}", out);
    assert!(!out.contains("frame3"), "got: {}", out);
}

#[test]
fn kvp_renders_event_fields() {
    let ev = context(Level::Warn);
    let mut v = event("user logged in");
    v.record_debug("user_id", "42".to_string());
    v.record_str("action", "login");
    let out = render("[%kvp]", &ev, &EventData::collect(v));
    assert!(out.contains("user_id=42"), "got: {}", out);
    assert!(out.contains("action=login"), "got: {}", out);
    assert!(!out.contains("message="), "message should not appear in kvp: {}", out);
}

#[test]
fn mdc_key_renders_span_field() {
    let mut ev = context(Level::Info);
    let mut store = SpanFieldStore::default();
    store.record("request_id", "abc-123".to_string());
    ev.span = Some(SpanContext { name: "op".to_string(), fields: Some(store) });
    let out = render("rid=%X{request_id}", &ev, &EventData::collect(event("hello")));
    assert!(out.contains("rid=abc-123"), "got: {}", out);
}

#[test]
fn mdc_missing_key_returns_empty() {
    let ev = context(Level::Info);
    let out = render("rid=[%X{missing}]", &ev, &EventData::collect(event("hello")));
    assert!(out.contains("rid=[]"), "got: {}", out);
}

#[test]
fn mdc_without_key_renders_all_fields() {
    let mut ev = context(Level::Info);
    let mut store = SpanFieldStore::default();
    store.record("request_id", "abc".to_string());
    store.record("user_id", "7".to_string());
    ev.span = Some(SpanContext { name: "op".to_string(), fields: Some(store) });
    let out = render("ctx=%X", &ev, &EventData::collect(event("hi")));
    assert!(out.contains("ctx="), "got: {}", out);
    assert!(out.contains("request_id="), "got: {}", out);
    assert!(out.contains("user_id="), "got: {}", out);
}

#[test]
fn marker_renders_field() {
    let ev = context(Level::Info);
    let mut v = event("auth event");
    v.record_str("marker", "SECURITY");
    let out = render("%marker", &ev, &EventData::collect(v));
    assert!(out.contains("SECURITY"), "got: {}", out);
}

#[test]
fn message_renders_correctly() {
    let ev = context(Level::Info);
    let out = render("%msg", &ev, &EventData::collect(event("hello world")));
    assert!(out.contains("hello world"), "got: {}", out);
}

#[test]
fn clr_with_color_option_parses() {
    let tokens = scan("%clr(%msg){red}").unwrap();
    assert!(matches!(
        &tokens[0],
        Token::Conversion {
            keyword: Keyword::Clr,
            option: Some(opt),
            sub_pattern: Some(_),
            ..
        } if opt == "red"
    ));
}

#[test]
fn color_words_parse_as_composite() {
    for (pattern, expected) in [
        ("%red(%msg)", Color::Red),
        ("%green(%msg)", Color::Green),
        ("%yellow(%msg)", Color::Yellow),
        ("%blue(%msg)", Color::Blue),
        ("%magenta(%msg)", Color::Magenta),
        ("%cyan(%msg)", Color::Cyan),
        ("%white(%msg)", Color::White),
        ("%faint(%msg)", Color::Faint),
        ("%boldRed(%msg)", Color::BoldRed),
        ("%boldGreen(%msg)", Color::BoldGreen),
        ("%boldYellow(%msg)", Color::BoldYellow),
        ("%boldBlue(%msg)", Color::BoldBlue),
    ] {
        let tokens = scan(pattern).unwrap();
        assert!(
            matches!(
                &tokens[0],
                Token::Conversion {
                    keyword: Keyword::ColorWord(c),
                    sub_pattern: Some(_),
                    ..
                } if *c == expected
            ),
            "pattern {} did not parse as ColorWord({:?}): {:#?}",
            pattern,
            expected,
            tokens
        );
    }
}

#[test]
fn level_renders_correctly() {
    let ev = context(Level::Warn);
    let out = render("%level", &ev, &EventData::collect(event("warn-level-event")));
    assert!(out.contains("WARN"), "got: {}", out);
}

#[test]
fn implicit_exception_appended_when_missing() {
    let ev = context(Level::Error);
    let mut v = event("event");
    v.record_error("error", vec!["auto-appended".to_string()], "auto-appended".to_string());
    let out = render("[%level] %msg", &ev, &EventData::collect(v));
    assert!(out.contains("auto-appended"), "got: {}", out);
}
