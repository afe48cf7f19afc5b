[package]
name = "ping_relay"
version = "0.1.0"
edition = "2021"
publish = false

[dependencies]
serde_json = "=1.0.151"
anyhow = "*"
env_logger = "*"
futures = "*"
tokio = { version = "=1.53.2", features = ["rt-multi-thread", "macros", "sync"] }
tracing = "*"
warp = { version = "=0.4.3", features = ["server", "websocket"] }
webrtc-unreliable = { version = "=0.6.0", features = ["tokio"] }
