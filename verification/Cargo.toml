[package]
name = "shiro_daemon"
version = "0.1.0"
edition = "2021"
publish = false

[dependencies]
serde = { version = "=1.0.229", features = ["derive"] }
serde_json = "=1.0.154"
serde_yaml = "=0.9.34"
toml = "=0.8.23"
axum = "=0.8.9"
tokio = { version = "=1.54.1", features = ["rt-multi-thread", "macros", "net", "sync", "time"] }
tokio-stream = { version = "=0.1.19", features = ["sync"] }
futures-util = "=0.3.34"
reqwest = { version = "=0.12.28", default-features = false, features = ["json", "stream", "rustls-tls"] }
utoipa = { version = "=5.5.0", features = ["axum_extras"] }
tower-http = { version = "=0.6.11", features = ["fs", "cors"] }
tracing = "=0.1.44"
notify = "=8.2.1"
clap = { version = "=4.6.7", features = ["derive"] }
