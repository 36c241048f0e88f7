[package]
name = "xyz-rust"
version = "0.1.0"
edition = "2021"
publish = false

[dependencies]
serde_json = { version = "=1.0.154", features = ["preserve_order"] }
chrono = "=0.4.45"
ctrlc = "=3.5.2"
axum = "=0.8.9"
tokio = { version = "=1.54.1", features = ["rt-multi-thread", "net", "macros", "signal", "time"] }
tower-http = { version = "=0.6.11", features = ["compression-gzip"] }
