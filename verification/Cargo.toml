[package]
name = "candle_fl"
version = "0.1.0"
edition = "2021"
publish = false

[dependencies]
anyhow = "=1.0.104"
candle-core = "=0.11.0"
candle-datasets = "=0.11.0"
candle-nn = "=0.11.0"
clap = { version = "=4.6.7", features = ["derive"] }
futures-util = "=0.3.34"
prost = "=0.14.4"
safetensors = "=0.8.0"
serde_json = "=1.0.154"
tokio = { version = "=1.54.1", features = ["macros", "rt-multi-thread", "sync"] }
tokio-stream = "=0.1.19"
tonic = "=0.14.6"
tonic-health = "=0.14.6"
tonic-prost = "=0.14.6"
tracing = "=0.1.44"
tracing-subscriber = "=0.3.23"
uuid = { version = "=1.29.0", features = ["v4"] }
