//! Formatter engines (logback and log4j pattern layouts) and their
//! construction from a formatter configuration.

pub mod log4j;
pub mod logback;

pub use log4j::{Keyword as Log4jKeyword, Log4jFormatter, Token as Log4jToken};
pub use logback::{scan, Keyword, LogbackFormatter, Token};

use vstd::prelude::*;
use crate::config::FormatterConfig;
use crate::error::ConfigError;
use crate::text::{byte_offset, chars_of, chars_eq_str, decimal, utf8_len};
use self::log4j::lexer::{scan4_spec, scan_checked as log4j_scan_checked};
use self::log4j::renderer::built_from as log4j_built_from;
use self::logback::lexer::{SScan, scan_checked, scan_spec};
use self::logback::renderer::built_from;

verus! {

/// The formatter of an appender: the built-in one of tracing-subscriber, or
/// one of the pattern engines.
pub enum FormatterKind {
    /// tracing-subscriber's built-in full formatter.
    Default,
    /// Logback conversion word pattern engine.
    Logback(LogbackFormatter),
    /// Log4j PatternLayout pattern engine.
    Log4j(Log4jFormatter),
}

/// `typ` names the logback engine (`logback`, or its alias `pattern`).
pub open spec fn is_logback_type(typ: Seq<char>) -> bool {
    typ == "logback"@ || typ == "pattern"@
}

/// The error text of a pattern parse error.
pub open spec fn pattern_error_text(message: Seq<char>, position: nat) -> Seq<char> {
    "pattern parse error at position "@ + decimal(position) + ": "@ + message
}

/// The text of the error for a pattern engine without a pattern.
pub open spec fn missing_pattern_text(typ: Seq<char>) -> Seq<char> {
    if typ == "logback"@ {
        "logback formatter requires 'pattern'"@
    } else if typ == "pattern"@ {
        "pattern formatter requires 'pattern'"@
    } else {
        "log4j formatter requires 'pattern'"@
    }
}

/// Building a formatter from `config` panics: its pattern sends the lexer
/// past the end of the pattern.
pub open spec fn formatter_panics(config: FormatterConfig) -> bool {
    match config.pattern {
        Some(p) => if is_logback_type(config.typ@) {
            scan_spec(p@) is Panic
        } else if config.typ@ == "log4j"@ {
            scan4_spec(p@) is Panic
        } else {
            false
        },
        None => false,
    }
}

/// `r` is what building a formatter from `config` with process id `pid` gives.
pub open spec fn build_matches(config: FormatterConfig, pid: u32, r: Result<FormatterKind, ConfigError>) -> bool {
    let t = config.typ@;
    if t == "default"@ {
        r matches Ok(FormatterKind::Default)
    } else if is_logback_type(t) {
        match config.pattern {
            None => r matches Err(ConfigError::InvalidConfig(m)) && m@ == missing_pattern_text(t),
            Some(p) => match scan_spec(p@) {
                SScan::Tokens(ts) => r matches Ok(FormatterKind::Logback(f)) && built_from(f, ts, pid),
                SScan::Fail(msg, pos) => r matches Err(ConfigError::InvalidConfig(m)) && m@ == pattern_error_text(msg, byte_offset(p@, pos as int)),
                SScan::Panic => false,
            },
        }
    } else if t == "log4j"@ {
        match config.pattern {
            None => r matches Err(ConfigError::InvalidConfig(m)) && m@ == missing_pattern_text(t),
            Some(p) => match scan4_spec(p@) {
                SScan::Tokens(ts) => r matches Ok(FormatterKind::Log4j(f)) && log4j_built_from(f, ts, pid),
                SScan::Fail(msg, pos) => r matches Err(ConfigError::InvalidConfig(m)) && m@ == pattern_error_text(msg, byte_offset(p@, pos as int)),
                SScan::Panic => false,
            },
        }
    } else {
        r matches Err(ConfigError::UnknownFormatterType { typ }) && typ@ == t
    }
}

/// Builds the formatter of `config` for the process `pid`; `None` where
/// the pattern makes the lexer panic.
#[verifier::spinoff_prover]
pub fn build_formatter_checked(config: &FormatterConfig, pid: u32) -> (r: Option<Result<FormatterKind, ConfigError>>)
    requires
        config.pattern matches Some(p) ==> utf8_len(p@) <= isize::MAX,
    ensures
        r is None <==> formatter_panics(*config),
        r matches Some(x) ==> build_matches(*config, pid, x),
{
    proof {
        reveal_strlit("default");
        reveal_strlit("logback");
        reveal_strlit("pattern");
        reveal_strlit("log4j");
        assert("default"@[0] != "logback"@[0]);
        assert("default"@[0] != "pattern"@[0]);
        assert("default"@[0] != "log4j"@[0]);
        assert("logback"@[0] != "pattern"@[0]);
        assert("logback"@.len() != "log4j"@.len());
        assert("pattern"@[0] != "log4j"@[0]);
    }
    let t = chars_of(config.typ.as_str());
    let t = t.as_slice();
    if chars_eq_str(t, "default") {
        return Some(Ok(FormatterKind::Default));
    }
    let logback = chars_eq_str(t, "logback") || chars_eq_str(t, "pattern");
    let log4j = chars_eq_str(t, "log4j");
    if !logback && !log4j {
        return Some(Err(ConfigError::UnknownFormatterType { typ: config.typ.clone() }));
    }
    let pattern = match &config.pattern {
        Some(p) => p,
        None => {
            let m = if chars_eq_str(t, "logback") {
                String::from_str("logback formatter requires 'pattern'")
            } else if chars_eq_str(t, "pattern") {
                String::from_str("pattern formatter requires 'pattern'")
            } else {
                String::from_str("log4j formatter requires 'pattern'")
            };
            return Some(Err(ConfigError::InvalidConfig(m)));
        },
    };
    if logback {
        match scan_checked(pattern.as_str()) {
            None => None,
            Some(Ok(tokens)) => Some(Ok(FormatterKind::Logback(LogbackFormatter::new(tokens, pid)))),
            Some(Err(e)) => Some(Err(ConfigError::InvalidConfig(e.message()))),
        }
    } else {
        match log4j_scan_checked(pattern.as_str()) {
            None => None,
            Some(Ok(tokens)) => Some(Ok(FormatterKind::Log4j(Log4jFormatter::new(tokens, pid)))),
            Some(Err(e)) => Some(Err(ConfigError::InvalidConfig(e.message()))),
        }
    }
}

/// Builds the formatter of `config` for the process `pid`.
pub fn build_formatter(config: &FormatterConfig, pid: u32) -> (r: Result<FormatterKind, ConfigError>)
    requires
        !formatter_panics(*config),
        config.pattern matches Some(p) ==> utf8_len(p@) <= isize::MAX,
    ensures
        build_matches(*config, pid, r),
{
    match build_formatter_checked(config, pid) {
        Some(r) => r,
        None => Err(ConfigError::NoConfig),
    }
}

} // verus!
