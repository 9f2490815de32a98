[package]
name = "wm"
version = "0.1.0"
edition = "2021"
publish = false

[dependencies]
anyhow = "=1.0.104"
futures-util = "=0.3.34"
tokio = { version = "=1.54.1", features = ["net", "sync", "rt-multi-thread", "macros", "time", "signal"] }
tokio-tungstenite = "=0.21.0"
tracing = "=0.1.44"
