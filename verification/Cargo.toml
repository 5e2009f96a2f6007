[package]
name = "tracing-estuary"
version = "0.1.0"
edition = "2021"
publish = false

[dependencies]
anyhow = "1"
compact_str = "0.9"
console-subscriber = "*"
flexi_logger = "*"
log = "0.4"
nu-ansi-term = "0.50"
parking_lot = "0.12"
tokio = { version = "1", features = ["rt"] }
tracing = "0.1"
tracing-log = "0.2"
tracing-subscriber = { version = "0.3", features = ["env-filter"] }

[dev-dependencies]
tempfile = "3"
