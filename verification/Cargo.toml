[package]
name = "openlogi"
version = "0.1.0"
edition = "2021"
publish = false

[dependencies]
async-hid = "*"
futures-concurrency = "*"
futures-lite = "*"
hidpp = "*"
serde = { version = "1", features = ["derive"] }
serde_json = "1"
thiserror = "2"
tokio = { version = "1", features = ["rt", "time", "sync", "macros"] }
tracing = "0.1"
