[package]
name = "glances-rs"
version = "0.4.1"
edition = "2021"
publish = false

[dependencies]
regex-lite = "0.1"
base64 = "0.22"
constant_time_eq = "*"
serde = { version = "1", features = ["derive"] }
serde_json = "1"
toml = "*"
sysinfo = "*"
tokio = { version = "1", features = ["rt", "macros", "net", "signal", "sync", "time"] }
axum = "0.8"
tower-http = { version = "0.6", features = ["cors"] }
tracing = "0.1"
tracing-subscriber = { version = "0.3", features = ["env-filter"] }
bytes = "1"
async-trait = "0.1"
libc = "0.2"
