//! The configuration model read from `tracing.toml`: global settings, filter
//! directives, appenders with their formatters, sampling and OpenTelemetry.

use vstd::prelude::*;

verus! {

/// Top-level configuration.
#[derive(Debug, Clone)]
pub struct Config {
    /// Global settings (level, ansi, span_events).
    pub global: GlobalConfig,
    /// Filter directives (env-filter style).
    pub filter: FilterConfig,
    /// Appender definitions (the `[[appender]]` array).
    pub appenders: Vec<AppenderConfig>,
    /// Sampling / rate-limiting settings.
    pub sampling: SamplingConfig,
    /// OpenTelemetry export settings.
    pub opentelemetry: OpentelemetryConfig,
}

/// Global settings (`[global]` section).
#[derive(Debug, Clone)]
pub struct GlobalConfig {
    /// Minimum log level: trace | debug | info | warn | error | off.
    pub level: String,
    /// Whether to enable ANSI color codes in output.
    pub ansi: bool,
    /// Span event capture strategy: none | new | enter | exit | close | full.
    pub span_events: String,
}

/// Filter directives (`[filter]` section), in `RUST_LOG` syntax.
#[derive(Debug, Clone)]
pub struct FilterConfig {
    /// Default level when no directive matches.
    pub default_level: String,
    /// Additional filter directives (e.g. `my_app::db=trace`).
    pub directives: Vec<String>,
}

/// Sampling / rate-limiting configuration (`[sampling]` section).
#[derive(Debug, Clone)]
pub struct SamplingConfig {
    /// Whether sampling is enabled.
    pub enabled: bool,
    /// Maximum events per second per appender.
    pub rate_per_second: u64,
}

/// OpenTelemetry export configuration (`[opentelemetry]` section).
#[derive(Debug, Clone)]
pub struct OpentelemetryConfig {
    /// Whether to enable OpenTelemetry trace export.
    pub enabled: bool,
    /// OTLP collector endpoint.
    pub endpoint: String,
    /// Service name reported to the collector.
    pub service_name: String,
    /// Service version reported to the collector.
    pub service_version: String,
}

/// Appender definition (`[[appender]]` section).
#[derive(Debug, Clone)]
pub struct AppenderConfig {
    /// Logical name (used in filter directives).
    pub name: String,
    /// Kind of appender: stdout | stderr | file | rolling_file.
    pub kind: String,
    /// Whether this appender is active.
    pub enabled: bool,
    /// File path (required for `kind = "file"`).
    pub path: Option<String>,
    /// Whether to append to an existing file.
    pub append: bool,
    /// Directory for the rolling file appender.
    pub dir: Option<String>,
    /// Filename prefix for the rolling file appender.
    pub prefix: Option<String>,
    /// Filename suffix for the rolling file appender.
    pub suffix: Option<String>,
    /// Rotation strategy: daily | hourly | never.
    pub rotation: Option<String>,
    /// Max file size in bytes.
    pub max_size: Option<u64>,
    /// Max number of rotated files to keep.
    pub max_files: Option<u32>,
    /// Override log level for this appender.
    pub level: Option<String>,
    /// Formatter configuration for this appender.
    pub formatter: FormatterConfig,
}

/// Formatter configuration (`[appender.formatter]` section).
#[derive(Debug, Clone)]
pub struct FormatterConfig {
    /// Formatter engine: default | logback | log4j | pattern (alias for logback).
    pub typ: String,
    /// Format pattern (required for the logback / log4j engines).
    pub pattern: Option<String>,
    /// Compact single-line format (default engine only).
    pub compact: bool,
    /// Pretty multi-line format (default engine only).
    pub pretty: bool,
    /// JSON structured format (default engine only).
    pub json: bool,
    /// Include target / module path in output.
    pub with_target: bool,
    /// Include source file name in output.
    pub with_file: bool,
    /// Include source line number in output.
    pub with_line: bool,
    /// Include thread name in output.
    pub with_thread: bool,
    /// Include log level in output.
    pub with_level: bool,
    /// Include timestamp in output.
    pub with_time: bool,
    /// Timestamp strftime format string.
    pub time_format: String,
}

/// Level used when `[global] level` is not given.
pub fn default_level() -> (r: String)
    ensures
        r@ == "info"@,
{
    String::from_str("info")
}

/// ANSI colours are on unless turned off.
pub fn default_ansi() -> (r: bool)
    ensures
        r,
{
    true
}

/// Span events recorded when `span_events` is not given.
pub fn default_span_events() -> (r: String)
    ensures
        r@ == "none"@,
{
    String::from_str("none")
}

/// Filter level used when `[filter] default_level` is not given.
pub fn default_default_level() -> (r: String)
    ensures
        r@ == "info"@,
{
    String::from_str("info")
}

/// Sampling rate used when `rate_per_second` is not given.
pub fn default_rate() -> (r: u64)
    ensures
        r == 1000,
{
    1000
}

/// Appenders are enabled unless turned off.
pub fn default_enabled() -> (r: bool)
    ensures
        r,
{
    true
}

/// File appenders append unless told otherwise.
pub fn default_append() -> (r: bool)
    ensures
        r,
{
    true
}

/// Formatter engine used when `type` is not given.
pub fn default_formatter_type() -> (r: String)
    ensures
        r@ == "default"@,
{
    String::from_str("default")
}

/// Targets are shown unless turned off.
pub fn default_with_target() -> (r: bool)
    ensures
        r,
{
    true
}

/// Levels are shown unless turned off.
pub fn default_with_level() -> (r: bool)
    ensures
        r,
{
    true
}

/// Timestamps are shown unless turned off.
pub fn default_with_time() -> (r: bool)
    ensures
        r,
{
    true
}

/// Timestamp format used when `time_format` is not given.
pub fn default_time_format() -> (r: String)
    ensures
        r@ == "%Y-%m-%dT%H:%M:%S%.3f"@,
{
    String::from_str("%Y-%m-%dT%H:%M:%S%.3f")
}

impl Default for GlobalConfig {
    fn default() -> (r: Self)
        ensures
            r.level@ == Seq::<char>::empty(),
            !r.ansi,
            r.span_events@ == Seq::<char>::empty(),
    {
        GlobalConfig { level: String::new(), ansi: false, span_events: String::new() }
    }
}

impl Default for FilterConfig {
    fn default() -> (r: Self)
        ensures
            r.default_level@ == Seq::<char>::empty(),
            r.directives@.len() == 0,
    {
        FilterConfig { default_level: String::new(), directives: Vec::new() }
    }
}

impl Default for SamplingConfig {
    fn default() -> (r: Self)
        ensures
            !r.enabled,
            r.rate_per_second == 0,
    {
        SamplingConfig { enabled: false, rate_per_second: 0 }
    }
}

impl Default for OpentelemetryConfig {
    fn default() -> (r: Self)
        ensures
            !r.enabled,
            r.endpoint@ == Seq::<char>::empty(),
            r.service_name@ == Seq::<char>::empty(),
            r.service_version@ == Seq::<char>::empty(),
    {
        OpentelemetryConfig {
            enabled: false,
            endpoint: String::new(),
            service_name: String::new(),
            service_version: String::new(),
        }
    }
}

/// All fields of a formatter configuration are empty, off or absent.
pub open spec fn is_empty_formatter_config(f: FormatterConfig) -> bool {
    &&& f.typ@ == Seq::<char>::empty()
    &&& f.pattern is None
    &&& !f.compact && !f.pretty && !f.json
    &&& !f.with_target && !f.with_file && !f.with_line && !f.with_thread
    &&& !f.with_level && !f.with_time
    &&& f.time_format@ == Seq::<char>::empty()
}

impl Default for FormatterConfig {
    fn default() -> (r: Self)
        ensures
            is_empty_formatter_config(r),
    {
        FormatterConfig {
            typ: String::new(),
            pattern: None,
            compact: false,
            pretty: false,
            json: false,
            with_target: false,
            with_file: false,
            with_line: false,
            with_thread: false,
            with_level: false,
            with_time: false,
            time_format: String::new(),
        }
    }
}

impl Default for Config {
    fn default() -> (r: Self)
        ensures
            r.global.level@ == Seq::<char>::empty(),
            !r.global.ansi,
            r.filter.default_level@ == Seq::<char>::empty(),
            r.filter.directives@.len() == 0,
            r.appenders@.len() == 0,
            !r.sampling.enabled,
            r.sampling.rate_per_second == 0,
            !r.opentelemetry.enabled,
    {
        Config {
            global: GlobalConfig::default(),
            filter: FilterConfig::default(),
            appenders: Vec::new(),
            sampling: SamplingConfig::default(),
            opentelemetry: OpentelemetryConfig::default(),
        }
    }
}

/// The appender of the built-in configuration: enabled, to stdout, with the
/// default formatter.
pub open spec fn is_builtin_appender(a: AppenderConfig) -> bool {
    &&& a.name@ == "stdout"@
    &&& a.kind@ == "stdout"@
    &&& a.enabled
    &&& a.path is None
    &&& a.append
    &&& a.dir is None && a.prefix is None && a.suffix is None && a.rotation is None
    &&& a.max_size is None && a.max_files is None && a.level is None
    &&& a.formatter.typ@ == "default"@
    &&& a.formatter.pattern is None
    &&& !a.formatter.compact && !a.formatter.pretty && !a.formatter.json
    &&& a.formatter.with_target
    &&& !a.formatter.with_file && !a.formatter.with_line && !a.formatter.with_thread
    &&& a.formatter.with_level && a.formatter.with_time
    &&& a.formatter.time_format@ == "%Y-%m-%dT%H:%M:%S%.3f"@
}

/// The built-in configuration: INFO level, ANSI on, one stdout appender with
/// the default formatter, sampling and OpenTelemetry off.
pub open spec fn is_builtin_config(c: Config) -> bool {
    &&& c.global.level@ == "info"@
    &&& c.global.ansi
    &&& c.global.span_events@ == "none"@
    &&& c.filter.default_level@ == "info"@
    &&& c.filter.directives@.len() == 0
    &&& c.appenders@.len() == 1
    &&& is_builtin_appender(c.appenders@[0])
    &&& !c.sampling.enabled
    &&& c.sampling.rate_per_second == 1000
    &&& !c.opentelemetry.enabled
    &&& c.opentelemetry.endpoint@ == Seq::<char>::empty()
    &&& c.opentelemetry.service_name@ == Seq::<char>::empty()
    &&& c.opentelemetry.service_version@ == Seq::<char>::empty()
}

/// Where the default configuration is read from.
#[derive(Debug, Clone, Copy, PartialEq, Eq, Structural)]
pub enum ConfigSource {
    /// The file named by the `TRACING_CONFIG` environment variable.
    EnvFile,
    /// `./tracing.toml` in the working directory.
    WorkingDir,
    /// `tracing.toml` beside the executable.
    ExeDir,
    /// No file: the built-in configuration.
    Builtin,
}

/// The search order of the default configuration: the file named by the
/// environment variable, then the working directory, then the executable's
/// directory, each where the file exists, then the built-in configuration.
/// A missing file is passed over silently.
pub open spec fn source_spec(env_set: bool, env_file_exists: bool, cwd_exists: bool, exe_dir_exists: bool) -> ConfigSource {
    if env_set && env_file_exists {
        ConfigSource::EnvFile
    } else if cwd_exists {
        ConfigSource::WorkingDir
    } else if exe_dir_exists {
        ConfigSource::ExeDir
    } else {
        ConfigSource::Builtin
    }
}

/// Chooses where the default configuration comes from, given whether
/// `TRACING_CONFIG` is set and whether the file it names exists, whether
/// `./tracing.toml` exists and whether `tracing.toml` exists beside the
/// executable.
pub fn choose_config_source(env_set: bool, env_file_exists: bool, cwd_exists: bool, exe_dir_exists: bool) -> (r: ConfigSource)
    ensures
        r == source_spec(env_set, env_file_exists, cwd_exists, exe_dir_exists),
{
    if env_set && env_file_exists {
        ConfigSource::EnvFile
    } else if cwd_exists {
        ConfigSource::WorkingDir
    } else if exe_dir_exists {
        ConfigSource::ExeDir
    } else {
        ConfigSource::Builtin
    }
}

impl Config {
    /// Built-in fallback used when no `tracing.toml` can be located.
    pub fn builtin_default() -> (r: Self)
        ensures
            is_builtin_config(r),
    {
        let mut appenders: Vec<AppenderConfig> = Vec::new();
        appenders.push(AppenderConfig {
            name: String::from_str("stdout"),
            kind: String::from_str("stdout"),
            enabled: true,
            path: None,
            append: true,
            dir: None,
            prefix: None,
            suffix: None,
            rotation: None,
            max_size: None,
            max_files: None,
            level: None,
            formatter: FormatterConfig {
                typ: String::from_str("default"),
                pattern: None,
                compact: false,
                pretty: false,
                json: false,
                with_target: true,
                with_file: false,
                with_line: false,
                with_thread: false,
                with_level: true,
                with_time: true,
                time_format: String::from_str("%Y-%m-%dT%H:%M:%S%.3f"),
            },
        });
        Config {
            global: GlobalConfig {
                level: String::from_str("info"),
                ansi: true,
                span_events: String::from_str("none"),
            },
            filter: FilterConfig { default_level: String::from_str("info"), directives: Vec::new() },
            appenders,
            sampling: SamplingConfig { enabled: false, rate_per_second: 1000 },
            opentelemetry: OpentelemetryConfig::default(),
        }
    }
}

} // verus!
