[package]
name = "rift"
version = "0.1.0"
edition = "2021"
publish = false

[dependencies]
anyhow = "1"
objc2-core-foundation = { version = "0.3", features = ["CFCGTypes"] }
ron = "*"
serde = { version = "1", features = ["derive"] }
serde_json = { version = "1", features = ["raw_value"] }
tokio = { version = "1", features = ["sync", "time", "rt", "macros"] }
tracing = "0.1"

[dev-dependencies]
tempfile = "3"
