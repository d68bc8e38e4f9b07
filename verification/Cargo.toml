[package]
name = "p2d_core"
version = "0.1.0"
edition = "2021"
publish = false

[dependencies]
audiopus = "=0.2.0"
uuid = { version = "=1.27.0", features = ["v4"] }
webrtc = "=0.7.3"
tokio = { version = "=1.53.2", features = ["rt-multi-thread", "macros", "sync", "time", "net"] }
tokio-tungstenite = "=0.30.0"
futures = "=0.3.34"
serde = { version = "=1.0.229", features = ["derive"] }
serde_json = "=1.0.151"
cpal = "=0.18.2"
bytes = "=1.12.1"
