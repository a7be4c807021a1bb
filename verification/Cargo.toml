[package]
name = "tracing-config"
version = "0.1.0"
edition = "2021"
publish = false

[dependencies]
chrono = "0.4"
tracing = "0.1"
tracing-subscriber = { version = "0.3", features = ["env-filter", "fmt", "registry"] }
tracing-appender = "0.2"
toml = "0.8"
serde = { version = "1", features = ["derive"] }
thiserror = "2"
notify = "6"
opentelemetry = "0.29"
opentelemetry_sdk = "0.29"
opentelemetry-otlp = "0.29"
tracing-opentelemetry = "0.30"
