//! Errors of configuration parsing and formatter construction.

use vstd::prelude::*;
use crate::text::{decimal, push_str, string_of, u128_to_decimal, push_all};

verus! {

/// Errors that can occur while parsing a configuration or building its
/// formatters and appenders.
#[derive(Debug)]
pub enum ConfigError {
    /// The TOML content could not be parsed (the parser's message).
    TomlParse(String),
    /// Reading a configuration file or opening an appender failed (the I/O error's message).
    Io(String),
    /// Semantically invalid configuration value.
    InvalidConfig(String),
    /// Pattern parse error at a position in the pattern.
    PatternParse {
        /// Description of the parse error.
        message: String,
        /// Zero-based byte offset in the pattern at which the error was detected.
        position: usize,
    },
    /// Unrecognised appender `kind`.
    UnknownAppenderKind {
        /// The kind that was given.
        kind: String,
    },
    /// Unrecognised formatter `type`.
    UnknownFormatterType {
        /// The type that was given.
        typ: String,
    },
    /// No configuration file and no built-in default.
    NoConfig,
    /// A `rolling_file` appender without a `dir`.
    RollingMissingDir,
    /// Building the OpenTelemetry exporter or provider failed.
    OpenTelemetry(String),
}

/// The text that describes an error.
pub open spec fn error_text(e: ConfigError) -> Seq<char> {
    match e {
        ConfigError::TomlParse(m) => "failed to parse TOML: "@ + m@,
        ConfigError::Io(m) => "IO error: "@ + m@,
        ConfigError::InvalidConfig(m) => "invalid configuration: "@ + m@,
        ConfigError::PatternParse { message, position } => "pattern parse error at position "@ + decimal(
            position as nat,
        ) + ": "@ + message@,
        ConfigError::UnknownAppenderKind { kind } => "unrecognized appender kind '"@ + kind@ + "'"@,
        ConfigError::UnknownFormatterType { typ } => "unrecognized formatter type '"@ + typ@ + "'"@,
        ConfigError::NoConfig => "config file not found and no default"@,
        ConfigError::RollingMissingDir => "rolling_file appender requires 'dir' field"@,
        ConfigError::OpenTelemetry(m) => "OpenTelemetry error: "@ + m@,
    }
}

impl ConfigError {
    /// The text that describes the error.
    pub fn message(&self) -> (r: String)
        ensures
            r@ == error_text(*self),
    {
        let mut out: Vec<char> = Vec::new();
        match self {
            ConfigError::TomlParse(m) => {
                push_str(&mut out, "failed to parse TOML: ");
                push_str(&mut out, m.as_str());
            },
            ConfigError::Io(m) => {
                push_str(&mut out, "IO error: ");
                push_str(&mut out, m.as_str());
            },
            ConfigError::InvalidConfig(m) => {
                push_str(&mut out, "invalid configuration: ");
                push_str(&mut out, m.as_str());
            },
            ConfigError::PatternParse { message, position } => {
                push_str(&mut out, "pattern parse error at position ");
                let d = u128_to_decimal(*position as u128);
                push_all(&mut out, d.as_slice());
                push_str(&mut out, ": ");
                push_str(&mut out, message.as_str());
            },
            ConfigError::UnknownAppenderKind { kind } => {
                push_str(&mut out, "unrecognized appender kind '");
                push_str(&mut out, kind.as_str());
                push_str(&mut out, "'");
            },
            ConfigError::UnknownFormatterType { typ } => {
                push_str(&mut out, "unrecognized formatter type '");
                push_str(&mut out, typ.as_str());
                push_str(&mut out, "'");
            },
            ConfigError::NoConfig => push_str(&mut out, "config file not found and no default"),
            ConfigError::RollingMissingDir => push_str(&mut out, "rolling_file appender requires 'dir' field"),
            ConfigError::OpenTelemetry(m) => {
                push_str(&mut out, "OpenTelemetry error: ");
                push_str(&mut out, m.as_str());
            },
        }
        assert(out@ =~= error_text(*self));
        string_of(out.as_slice())
    }
}

} // verus!
