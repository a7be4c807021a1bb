# tracing-config

Declarative `tracing` initialization from a `tracing.toml` file: logback- and
log4j-style pattern layouts, several appenders, sampling, span field capture
and OpenTelemetry export.

## Layout

- `src/` — the verified library (Verus). It holds the configuration model and
  its defaults, the logback and log4j pattern lexers, the renderers that turn
  an event's data into text, logger-name abbreviation, format modifiers,
  colours, date-pattern conversion, escaping, the span field store, the
  filter directives and appender plans derived from a configuration, the
  OpenTelemetry endpoint rules and a token-bucket rate limiter. Each public
  function carries a contract; laws relating several functions are stated as
  proof functions next to them.
- `app/` — ordinary Rust around the library: reading `tracing.toml` with
  serde, the `tracing` trait implementations (`FormatEvent`, `Layer`,
  `MakeWriter`), file and console writers, the file watcher of the reload
  path and the OpenTelemetry exporter.
- `tests/` — tests of the library.
