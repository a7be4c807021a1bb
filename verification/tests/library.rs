//! Scenarios of the library on concrete values: formatter construction,
//! appender planning, filter directives, error texts, timestamps, escaping
//! and the documented properties of abbreviation, modifiers and rendering.

use tracing_config::env_filter::directives_slice_safely;
use tracing_config::appender::{plan_init, build_env_filter, filter_directives, plan_appender, sampling_rate, AppenderPlan, Rotation};
use tracing_config::config::{choose_config_source, AppenderConfig, Config, ConfigSource, FormatterConfig};
use tracing_config::error::ConfigError;
use tracing_config::formatter::log4j::lexer::EscapeMode;
use tracing_config::formatter::log4j::renderer::{escape, json_escape, html_escape, truncate};
use tracing_config::formatter::logback::abbreviator::abbreviate;
use tracing_config::formatter::logback::align::FormatModifier;
use tracing_config::formatter::logback::color::{highlight, highlight_to_writer, with_color_to_writer, Color};
use tracing_config::formatter::log4j::abbreviator::{abbreviate_log4j, abbreviate_to_writer, SegIter};
use tracing_config::formatter::logback::date::{format_time, Timestamp};
use tracing_config::formatter::logback::renderer::{
    EventContext, EventData, EventVisitor, SpanContext, TimestampCache,
};
use tracing_config::formatter::logback::{scan, LogbackFormatter};
use tracing_config::formatter::{build_formatter, build_formatter_checked, FormatterKind};
use tracing_config::level::Level;
use tracing_config::otel::{otel_endpoint, otel_resource, otel_service_name};
use tracing_config::config::OpentelemetryConfig;
use std::sync::atomic::{AtomicU64, Ordering};
use tracing_config::sampling::{clock_value, decrement, refill_due, refill_if_due, take_token, token_taken, RateLimiter};
use tracing_config::span_fields::SpanFieldStore;

fn formatter_config(typ: &str, pattern: Option<&str>) -> FormatterConfig {
    let mut f = FormatterConfig::default();
    f.typ = typ.to_string();
    f.pattern = pattern.map(|p| p.to_string());
    f
}

fn appender(kind: &str) -> AppenderConfig {
    let mut a = Config::builtin_default().appenders.remove(0);
    a.name = "a".to_string();
    a.kind = kind.to_string();
    a
}

fn context() -> EventContext {
    EventContext {
        level: Level::Info,
        target: "app::db::pool".to_string(),
        file: None,
        line: Some(7),
        thread_name: "worker-1".to_string(),
        span: None,
        relative_millis: 1500,
        now: Timestamp { millis: 0, offset_secs: 0 },
    }
}

fn render(pattern: &str, ev: &EventContext, data: &EventData) -> String {
    let f = LogbackFormatter::new(scan(pattern).unwrap(), 99);
    let mut cache = TimestampCache::new();
    f.format_event(&mut cache, ev, data).unwrap()
}

fn message(m: &str) -> EventData {
    let mut v = EventVisitor::default();
    v.record_debug("message", m.to_string());
    EventData::collect(v)
}

#[test]
fn format_time_gives_exact_local_time() {
    let t = Timestamp { millis: 0, offset_secs: 3600 };
    assert_eq!(format_time("yyyy-MM-dd HH:mm:ss", t).unwrap(), "1970-01-01 01:00:00");
    let t = Timestamp { millis: 1_500, offset_secs: 0 };
    assert_eq!(format_time("HH:mm:ss.SSS", t).unwrap(), "00:00:01.500");
}

#[test]
fn timestamp_cache_reformats_on_new_pattern_or_instant() {
    let mut cache = TimestampCache::new();
    let t = Timestamp { millis: 86_400_000, offset_secs: 0 };
    assert_eq!(cache.get(t, "%Y-%m-%d").unwrap(), "1970-01-02");
    assert_eq!(cache.get(t, "%H").unwrap(), "00");
    let t2 = Timestamp { millis: 2 * 86_400_000, offset_secs: 0 };
    assert_eq!(cache.get(t2, "%Y-%m-%d").unwrap(), "1970-01-03");
}

#[test]
fn timestamp_out_of_range_offset_is_rejected() {
    let mut cache = TimestampCache::new();
    let t = Timestamp { millis: 0, offset_secs: 90_000 };
    assert!(cache.get(t, "%Y").is_none());
}

#[test]
fn date_conversion_renders_with_default_format() {
    let ev = context();
    assert_eq!(render("%d", &ev, &message("x")), "1970-01-01 00:00:00.000");
    assert_eq!(render("%d{HH:mm}", &ev, &message("x")), "00:00");
}

#[test]
fn renders_line_thread_relative_and_pid() {
    let ev = context();
    assert_eq!(render("%line|%thread|%r|%pid", &ev, &message("x")), "7|worker-1|1500|99");
}

#[test]
fn logger_abbreviation_in_pattern() {
    let ev = context();
    assert_eq!(render("%logger{0}", &ev, &message("x")), "app::db::pool");
    assert_eq!(render("%c{12}", &ev, &message("x")), "app.db.pool");
    assert_eq!(render("%c{8}", &ev, &message("x")), "a.d.pool");
}

#[test]
fn modifier_pads_rendered_level() {
    let ev = context();
    assert_eq!(render("[%-5level]", &ev, &message("x")), "[INFO ]");
    assert_eq!(render("[%5level]", &ev, &message("x")), "[ INFO]");
}

#[test]
fn highlight_and_clr_wrap_in_colour() {
    let ev = context();
    assert_eq!(render("%highlight(%msg)", &ev, &message("m")), "\x1b[34mm\x1b[0m");
    assert_eq!(render("%clr(%msg){RED}", &ev, &message("m")), "\x1b[31mm\x1b[0m");
    assert_eq!(render("%clr(%msg){nope}", &ev, &message("m")), "\x1b[37mm\x1b[0m");
}

#[test]
fn mdc_reads_last_recorded_value() {
    let mut ev = context();
    let mut store = SpanFieldStore::default();
    store.record("k", "old".to_string());
    store.record("k", "new".to_string());
    ev.span = Some(SpanContext { name: "s".to_string(), fields: Some(store) });
    assert_eq!(render("%X{k}", &ev, &message("x")), "new");
    assert_eq!(render("%X", &ev, &message("x")), "{k=new}");
    assert_eq!(render("%M", &ev, &message("x")), "s");
}

#[test]
fn mdc_falls_back_to_event_field() {
    let ev = context();
    let mut v = EventVisitor::default();
    v.record_str("user", "bob");
    assert_eq!(render("%X{user}", &ev, &EventData::collect(v)), "bob");
}

#[test]
fn exception_depth_zero_renders_nothing() {
    let ev = context();
    let mut v = EventVisitor::default();
    v.record_error("error", vec!["a".to_string(), "b".to_string()], "a".to_string());
    assert_eq!(render("[%ex{0}]", &ev, &EventData::collect(v)), "[]");
}

#[test]
fn root_exception_appends_package_info() {
    let ev = context();
    let mut v = EventVisitor::default();
    v.record_error("error", vec!["a".to_string(), "b".to_string()], "a".to_string());
    assert_eq!(
        render("%rEx", &ev, &EventData::collect(v)),
        "a [tracing-config 0.1.0]\nCaused by: b [tracing-config 0.1.0]"
    );
}

#[test]
fn implicit_exception_goes_on_a_new_line() {
    let ev = context();
    let mut v = EventVisitor::default();
    v.record_debug("message", "\"quoted\"".to_string());
    v.record_debug("error", "E".to_string());
    assert_eq!(render("%msg", &ev, &EventData::collect(v)), "quoted\nE");
}

#[test]
fn visitor_keeps_first_message_and_marker() {
    let mut v = EventVisitor::default();
    v.record_str("message", "one");
    v.record_str("message", "two");
    v.record_str("marker", "M1");
    v.record_error("marker", vec![], "M2".to_string());
    v.record_str("message", "three");
    let d = EventData::collect(v);
    assert_eq!(d.message, "one");
    assert_eq!(d.marker.as_deref(), Some("M1"));
    assert!(d.fields.is_empty());
    assert_eq!(d.field("message"), None);
}

#[test]
fn event_data_drops_message_fields_and_finds_first_field() {
    let d = EventData {
        message: String::new(),
        fields: vec![("a".into(), "1".into()), ("a".into(), "2".into())],
        error_chain: vec![],
        marker: None,
    };
    assert_eq!(d.field("a"), Some("1"));
    assert_eq!(d.kvp_string(), "a=1 a=2");
}

#[test]
fn color_parse_ignores_case() {
    assert_eq!(Color::parse("RED"), Some(Color::Red));
    assert_eq!(Color::parse("Bold_Green"), Some(Color::BoldGreen));
}

#[test]
fn logback_abbreviation_keeps_last_segment() {
    assert_eq!(abbreviate("a::b::c", 0), "c");
    let r = abbreviate("my_app::service::user_handler", 20);
    assert!(r.ends_with(".user_handler"));
}

#[test]
fn modifier_widths() {
    let m = FormatModifier { left_align: false, min_width: None, max_width: Some(3), max_from_end: true };
    assert_eq!(m.apply("abcdef"), "def");
    let m = FormatModifier { left_align: true, min_width: Some(4), max_width: None, max_from_end: false };
    assert_eq!(m.apply("é"), "é  ");
}

#[test]
fn escapes_and_truncation() {
    assert_eq!(html_escape("a&'b"), "a&amp;&#39;b");
    assert_eq!(json_escape("\u{1}\\"), "\\u0001\\\\");
    assert_eq!(json_escape("\u{1f}"), "\\u001f");
    assert_eq!(escape("a\r\nb", EscapeMode::Crlf), "a\\r\\nb");
    assert_eq!(escape("<x>", EscapeMode::Plain), "<x>");
    assert_eq!(escape("<x>", EscapeMode::Xml), "&lt;x&gt;");
    assert_eq!(truncate("héllo", 2), "h");
    assert_eq!(truncate("héllo", 3), "hé");
    assert_eq!(truncate("", 3), "");
}

#[test]
fn build_formatter_outcomes() {
    assert!(matches!(build_formatter(&formatter_config("default", None), 1), Ok(FormatterKind::Default)));
    assert!(matches!(
        build_formatter(&formatter_config("logback", Some("%msg")), 1),
        Ok(FormatterKind::Logback(_))
    ));
    assert!(matches!(
        build_formatter(&formatter_config("pattern", Some("%msg")), 1),
        Ok(FormatterKind::Logback(_))
    ));
    assert!(matches!(
        build_formatter(&formatter_config("log4j", Some("%m")), 1),
        Ok(FormatterKind::Log4j(_))
    ));
    match build_formatter(&formatter_config("log4j", None), 1) {
        Err(ConfigError::InvalidConfig(m)) => assert_eq!(m, "log4j formatter requires 'pattern'"),
        _ => panic!("expected a missing pattern error"),
    }
    match build_formatter(&formatter_config("logback", Some("%Z")), 1) {
        Err(ConfigError::InvalidConfig(m)) => assert!(m.starts_with("pattern parse error at position ")),
        _ => panic!("expected a pattern error"),
    }
    match build_formatter(&formatter_config("custom", None), 1) {
        Err(ConfigError::UnknownFormatterType { typ }) => assert_eq!(typ, "custom"),
        _ => panic!("expected an unknown type error"),
    }
    assert!(build_formatter_checked(&formatter_config("default", None), 1).is_some());
}

#[test]
fn plan_appender_outcomes() {
    assert!(matches!(plan_appender(&appender("stdout"), 5), Ok(AppenderPlan::Stdout { rate: 5 })));
    assert!(matches!(plan_appender(&appender("stderr"), 0), Ok(AppenderPlan::Stderr { rate: 0 })));
    match plan_appender(&appender("file"), 0) {
        Err(ConfigError::InvalidConfig(m)) => assert_eq!(m, "file appender requires 'path'"),
        _ => panic!("expected missing path"),
    }
    let mut f = appender("file");
    f.path = Some("/tmp/x.log".to_string());
    f.append = false;
    match plan_appender(&f, 3) {
        Ok(AppenderPlan::File { path, append, rate }) => {
            assert_eq!(path, "/tmp/x.log");
            assert!(!append);
            assert_eq!(rate, 3);
        }
        _ => panic!("expected a file plan"),
    }
    assert!(matches!(plan_appender(&appender("rolling_file"), 0), Err(ConfigError::RollingMissingDir)));
    let mut r = appender("rolling_file");
    r.dir = Some("/tmp/logs".to_string());
    match plan_appender(&r, 0) {
        Ok(AppenderPlan::RollingFile { dir, rotation, file_name, .. }) => {
            assert_eq!(dir, "/tmp/logs");
            assert_eq!(rotation, Rotation::Daily);
            assert_eq!(file_name, "app.log");
        }
        _ => panic!("expected a rolling plan"),
    }
    r.rotation = Some("hourly".to_string());
    r.prefix = Some("svc".to_string());
    r.suffix = Some("txt".to_string());
    match plan_appender(&r, 0) {
        Ok(AppenderPlan::RollingFile { rotation, file_name, .. }) => {
            assert_eq!(rotation, Rotation::Hourly);
            assert_eq!(file_name, "svc.txt");
        }
        _ => panic!("expected a rolling plan"),
    }
    r.rotation = Some("weekly".to_string());
    match plan_appender(&r, 0) {
        Err(ConfigError::InvalidConfig(m)) => assert_eq!(m, "unknown rotation 'weekly'"),
        _ => panic!("expected an unknown rotation"),
    }
    match plan_appender(&appender("socket"), 0) {
        Err(ConfigError::UnknownAppenderKind { kind }) => assert_eq!(kind, "socket"),
        _ => panic!("expected an unknown kind"),
    }
}

#[test]
fn filter_directives_collect_levels() {
    let mut c = Config::builtin_default();
    assert_eq!(filter_directives(&c), "info");
    c.filter.default_level = String::new();
    c.global.level = "debug".to_string();
    c.filter.directives = vec!["my_app::db=trace".to_string()];
    c.appenders[0].level = Some("warn".to_string());
    assert_eq!(filter_directives(&c), "debug,my_app::db=trace,stdout=warn");
    c.appenders[0].enabled = false;
    assert_eq!(filter_directives(&c), "debug,my_app::db=trace");
    c.global.level = String::new();
    c.filter.directives = vec![];
    assert_eq!(filter_directives(&c), "info");
    assert!(build_env_filter(&c).is_ok());
    c.filter.directives = vec!["a=notalevel".to_string()];
    assert!(matches!(build_env_filter(&c), Err(ConfigError::InvalidConfig(_))));
}

#[test]
fn sampling_rate_follows_enabled_flag() {
    let mut c = Config::builtin_default();
    assert_eq!(sampling_rate(&c), 0);
    c.sampling.enabled = true;
    assert_eq!(sampling_rate(&c), 1000);
}

#[test]
fn error_messages_are_exact() {
    assert_eq!(ConfigError::TomlParse("bad".into()).message(), "failed to parse TOML: bad");
    assert_eq!(ConfigError::Io("gone".into()).message(), "IO error: gone");
    assert_eq!(
        ConfigError::PatternParse { message: "m".into(), position: 12 }.message(),
        "pattern parse error at position 12: m"
    );
    assert_eq!(
        ConfigError::UnknownFormatterType { typ: "x".into() }.message(),
        "unrecognized formatter type 'x'"
    );
    assert_eq!(ConfigError::OpenTelemetry("e".into()).message(), "OpenTelemetry error: e");
}

#[test]
fn config_source_search_order() {
    assert_eq!(choose_config_source(true, true, true, true), ConfigSource::EnvFile);
    assert_eq!(choose_config_source(false, false, true, true), ConfigSource::WorkingDir);
    assert_eq!(choose_config_source(false, false, false, true), ConfigSource::ExeDir);
    assert_eq!(choose_config_source(false, false, false, false), ConfigSource::Builtin);
    // A variable that names a missing file is passed over silently.
    assert_eq!(choose_config_source(true, false, true, true), ConfigSource::WorkingDir);
    assert_eq!(choose_config_source(true, false, false, true), ConfigSource::ExeDir);
    assert_eq!(choose_config_source(true, false, false, false), ConfigSource::Builtin);
}

#[test]
fn otel_endpoint_and_service_name() {
    let mut c = OpentelemetryConfig::default();
    assert_eq!(otel_endpoint(&c), "http://localhost:4318/v1/traces");
    assert_eq!(otel_service_name(&c), "tracing-config");
    c.endpoint = "http://collector:4318/".to_string();
    assert_eq!(otel_endpoint(&c), "http://collector:4318/v1/traces");
    c.endpoint = "http://collector:4318/v1/traces//".to_string();
    assert_eq!(otel_endpoint(&c), "http://collector:4318/v1/traces");
    c.service_name = "svc".to_string();
    assert_eq!(otel_service_name(&c), "svc");
}

#[test]
fn rate_limiter_drops_when_bucket_is_empty() {
    let limiter = RateLimiter::new(2);
    assert!(limiter.is_allowed());
    assert!(limiter.is_allowed());
    assert!(!limiter.is_allowed());
    assert!(refill_due(2_000, 1_000));
    assert!(!refill_due(1_999, 1_000));
    assert!(!refill_due(0, 5_000));
}

#[test]
fn plain_pattern_renders_itself() {
    let ev = context();
    assert_eq!(render("plain text, no conversions", &ev, &message("ignored")), "plain text, no conversions");
    let f = tracing_config::formatter::log4j::Log4jFormatter::new(
        tracing_config::formatter::log4j::scan("just text").unwrap(),
        1,
    );
    let mut cache = TimestampCache::new();
    assert_eq!(f.format_event(&mut cache, &ev, &message("m")).unwrap(), "just text");
}

#[test]
fn quoted_date_text_is_copied() {
    assert_eq!(tracing_config::formatter::logback::date::convert_pattern("'at noon'"), "at noon");
}

#[test]
fn writer_variants_append_to_the_buffer() {
    let mut out = String::from(">");
    FormatModifier { left_align: true, min_width: Some(3), max_width: None, max_from_end: false }
        .apply_to_writer("a", &mut out)
        .unwrap();
    assert_eq!(out, ">a  ");

    let mut out = String::new();
    with_color_to_writer(Color::Green, "g", &mut out).unwrap();
    highlight_to_writer(Level::Warn, "w", &mut out).unwrap();
    assert_eq!(out, "\x1b[32mg\x1b[0m\x1b[33mw\x1b[0m");
    assert_eq!(highlight(Level::Error, "e"), "\x1b[1;31me\x1b[0m");

    let mut out = String::new();
    abbreviate_to_writer("com.example.Bar", 1, &mut out).unwrap();
    assert_eq!(out, "c.e.Bar");
    assert_eq!(abbreviate_log4j("com.example.Bar", 0), "Bar");

    let segs: Vec<String> = SegIter::new("a::b.c")
        .collect_segments()
        .into_iter()
        .map(|v| v.into_iter().collect())
        .collect();
    assert_eq!(segs, vec!["a", "b", "c"]);
}

#[test]
fn init_plan_lists_enabled_appenders() {
    let mut c = Config::builtin_default();
    c.appenders.push(appender("stderr"));
    c.appenders.push(appender("file"));
    c.appenders[1].enabled = false;
    c.sampling.enabled = true;
    c.sampling.rate_per_second = 50;
    let plan = plan_init(&c);
    assert_eq!(plan.appenders, vec![0, 2]);
    assert_eq!(plan.rate, 50);
    assert!(!plan.opentelemetry);
}

#[test]
fn otel_resource_keeps_configured_values() {
    let mut c = OpentelemetryConfig::default();
    let r = otel_resource(&c);
    assert!(r.service_name.is_none() && r.service_version.is_none());
    c.service_name = "svc".to_string();
    c.service_version = "1.2".to_string();
    let r = otel_resource(&c);
    assert_eq!(r.service_name.as_deref(), Some("svc"));
    assert_eq!(r.service_version.as_deref(), Some("1.2"));
}

#[test]
fn token_is_taken_only_from_a_non_empty_bucket() {
    assert!(token_taken(Ok(3)));
    assert!(!token_taken(Err(0)));
    assert!(!token_taken(Ok(0)));
    assert_eq!(decrement(3), Some(2));
    assert_eq!(decrement(1), Some(0));
    assert_eq!(decrement(0), None);
    assert_eq!(clock_value(Some(1234)), 1234);
    assert_eq!(clock_value(None), 0);
}

#[test]
fn log4j_writer_abbreviation_matches_string_form() {
    for (target, depth) in [("a.", 1), ("a..b", 1), ("x::y.z", 2), ("", 3), ("com.example.Bar", 0), ("a::b::", 1)] {
        let mut out = String::from(">");
        abbreviate_to_writer(target, depth, &mut out).unwrap();
        assert_eq!(out, format!(">{}", abbreviate_log4j(target, depth)), "target {target:?} depth {depth}");
    }
    let mut out = String::new();
    abbreviate_to_writer("a.", 1, &mut out).unwrap();
    assert_eq!(out, "a.");
}

#[test]
fn taking_tokens_stops_at_an_empty_bucket() {
    let bucket = AtomicU64::new(2);
    assert!(take_token(&bucket));
    assert_eq!(bucket.load(Ordering::SeqCst), 1);
    assert!(take_token(&bucket));
    assert!(!take_token(&bucket));
    assert!(!take_token(&bucket));
    assert_eq!(bucket.load(Ordering::SeqCst), 0);

    // A refill is due a second after the last one, not before.
    let last = AtomicU64::new(10_000);
    refill_if_due(&bucket, &last, 5, 10_500);
    assert_eq!(bucket.load(Ordering::SeqCst), 0);
    refill_if_due(&bucket, &last, 5, 11_000);
    assert_eq!(bucket.load(Ordering::SeqCst), 5);
    assert_eq!(last.load(Ordering::SeqCst), 11_000);
}

#[test]
fn limiter_allows_at_most_the_rate_within_a_second() {
    let limiter = RateLimiter::new(3);
    let allowed = (0..10).filter(|_| limiter.is_allowed()).count();
    assert!(allowed >= 3 && allowed <= 6, "allowed {allowed}");
}

#[test]
fn every_color_name_parses_back_in_any_ascii_case() {
    let names = [
        ("black", "black", Color::Black),
        ("red", "red", Color::Red),
        ("green", "green", Color::Green),
        ("yellow", "yellow", Color::Yellow),
        ("blue", "blue", Color::Blue),
        ("magenta", "magenta", Color::Magenta),
        ("cyan", "cyan", Color::Cyan),
        ("white", "white", Color::White),
        ("faint", "faint", Color::Faint),
        ("bold_red", "boldRed", Color::BoldRed),
        ("bold_green", "boldGreen", Color::BoldGreen),
        ("bold_yellow", "boldYellow", Color::BoldYellow),
        ("bold_blue", "boldBlue", Color::BoldBlue),
        ("bold_magenta", "boldMagenta", Color::BoldMagenta),
        ("bold_cyan", "boldCyan", Color::BoldCyan),
        ("bold_white", "boldWhite", Color::BoldWhite),
    ];
    for (snake, camel, c) in names {
        assert_eq!(Color::parse(snake), Some(c));
        assert_eq!(Color::parse(camel), Some(c));
        assert_eq!(Color::parse(&snake.to_ascii_uppercase()), Some(c));
        assert_eq!(Color::parse(&camel.to_ascii_uppercase()), Some(c));
    }
    assert_eq!(Color::parse("purple"), None);
}

#[test]
fn env_filter_keeps_its_directives_and_refuses_unsliceable_pieces() {
    let mut c = Config::builtin_default();
    c.filter.directives = vec!["my_app::db=trace".to_string()];
    let f = build_env_filter(&c).unwrap();
    assert_eq!(f.directive_text(), filter_directives(&c));
    assert_eq!(f.directive_text(), "info,my_app::db=trace");
    let _ = f.into_filter();

    // Leading whitespace before ASCII text is handed to the parser.
    c.filter.directives = vec![" my_app=debug".to_string()];
    assert_eq!(build_env_filter(&c).is_ok(), tracing_subscriber::EnvFilter::try_new(filter_directives(&c)).is_ok());

    // Leading whitespace before non-ASCII text would make the parser panic.
    c.filter.directives = vec![" é=info".to_string()];
    match build_env_filter(&c) {
        Err(ConfigError::InvalidConfig(m)) => {
            assert_eq!(m, "a filter directive begins with whitespace and holds non-ASCII text: info, é=info")
        }
        _ => panic!("expected InvalidConfig"),
    }
    assert!(!directives_slice_safely(" é=info"));
    assert!(directives_slice_safely("é=info, a=debug"));
    assert!(!directives_slice_safely("a,\u{3000}b"));
}
