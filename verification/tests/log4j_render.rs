//! Rendering of events with log4j patterns.

use tracing_config::formatter::log4j::{scan, Log4jFormatter};
use tracing_config::formatter::logback::date::Timestamp;
use tracing_config::formatter::logback::renderer::{
    EventContext, EventData, EventVisitor, SpanContext, TimestampCache,
};
use tracing_config::level::Level;

fn context(level: Level, target: &str) -> EventContext {
    EventContext {
        level,
        target: target.to_string(),
        file: None,
        line: None,
        thread_name: "main".to_string(),
        span: None,
        relative_millis: 0,
        now: Timestamp { millis: 3_723_000, offset_secs: 0 },
    }
}

fn render(pattern: &str, ev: &EventContext, data: &EventData) -> String {
    let f = Log4jFormatter::new(scan(pattern).unwrap(), 7);
    let mut cache = TimestampCache::new();
    f.format_event(&mut cache, ev, data).unwrap()
}

fn event(message: &str) -> EventVisitor {
    let mut v = EventVisitor::default();
    v.record_debug("message", message.to_string());
    v
}

#[test]
fn log4j_basic_pattern() {
    let ev = context(Level::Warn, "com.example.foo.Bar");
    let out = render("%d{HH:mm:ss} %-5p %c{1.} - %m%n", &ev, &EventData::collect(event("boot complete")));
    assert!(out.contains("WARN"), "level: {}", out);
    assert!(out.contains("c.e.f.Bar"), "logger: {}", out);
    assert!(out.contains("boot complete"), "msg: {}", out);
}

#[test]
fn log4j_percent_x_renders_span_name() {
    let mut ev = context(Level::Info, "app");
    ev.span = Some(SpanContext { name: "op-name".to_string(), fields: None });
    let out = render("[%x] %m", &ev, &EventData::collect(event("hello")));
    assert!(out.contains("[op-name]"), "got: {}", out);
    assert!(out.contains("hello"), "got: {}", out);
}

#[test]
fn log4j_exception_renders_chain() {
    let ev = context(Level::Error, "app");
    let mut v = event("explosion");
    v.record_error("error", vec!["boom".to_string()], "boom".to_string());
    let out = render("%p %m%n%xEx", &ev, &EventData::collect(v));
    assert!(out.contains("ERROR"), "level: {}", out);
    assert!(out.contains("boom"), "exception: {}", out);
}

#[test]
fn log4j_enc_html_escapes_message() {
    let ev = context(Level::Info, "app");
    let out = render("%enc{%m}{html}", &ev, &EventData::collect(event("<script>alert(\"x\")</script>")));
    assert!(out.contains("&lt;script&gt;"));
    assert!(out.contains("&quot;"));
    assert!(!out.contains("<script>"));
}

#[test]
fn log4j_maxlen_truncates() {
    let ev = context(Level::Info, "app");
    let out = render("%maxLen{%m}{5}", &ev, &EventData::collect(event("hello world")));
    assert!(out.contains("hello"), "got: {}", out);
    assert!(!out.contains("world"), "should truncate at 5: {}", out);
}

#[test]
fn log4j_highlight_levels() {
    let ev = context(Level::Error, "app");
    let out = render("%highlight{%p}", &ev, &EventData::collect(event("e")));
    assert!(out.contains("ERROR"), "got: {}", out);
}

#[test]
fn log4j_date_renders_event_time() {
    let ev = context(Level::Info, "app");
    let out = render("%d{HH:mm:ss}|%m", &ev, &EventData::collect(event("x")));
    assert_eq!(out, "01:02:03|x");
}
