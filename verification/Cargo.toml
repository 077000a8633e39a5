[package]
name = "impermachat"
version = "0.1.0"
edition = "2021"
publish = false

[dependencies]
tokio = { version = "1", features = ["sync", "rt-multi-thread", "macros", "time", "signal", "net"] }
uuid = { version = "1", features = ["v4"] }
axum = "0.7"
askama = "0.12"
serde = { version = "1", features = ["derive"] }
async-stream = "0.3"
futures-util = "0.3"
tokio-stream = { version = "0.1", features = ["sync"] }
tower = "0.4"
tower-http = { version = "0.5", features = ["fs", "set-header"] }
http = "1"
listenfd = "1"
