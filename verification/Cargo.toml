[package]
name = "service_flow"
version = "0.1.0"
edition = "2021"
publish = false

[dependencies]
serde = { version = "1", features = ["derive"] }
serde_json = "1"
thiserror = "1"
log = "0.4"
simple_logger = "4"
lazy_static = "1"
chrono = "0.4"
sysinfo = "0.29"
tokio = { version = "1", features = ["rt-multi-thread", "time", "macros"] }
reqwest = { version = "0.11", features = ["blocking"] }
axum = { version = "0.6", features = ["ws"] }
sqlx = { version = "0.7", features = ["sqlite", "runtime-tokio"] }
