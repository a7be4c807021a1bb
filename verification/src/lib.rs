//! Declarative configuration of logging output: logback / log4j pattern
//! engines, configuration model, sampling and span field capture.

pub mod text;
pub mod config;
pub mod appender;
pub mod env_filter;
pub mod level;
pub mod error;
pub mod formatter;
pub mod span_fields;
pub mod sampling;
pub mod windows;
pub mod otel;

use vstd::prelude::*;

verus! {

/// Package name reported by `%rEx` / `%xEx` frames.
pub const CRATE_NAME: &'static str = "tracing-config";

/// Package version reported by `%rEx` / `%xEx` frames.
pub const CRATE_VERSION: &'static str = "0.1.0";

} // verus!
