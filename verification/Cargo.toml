[package]
name = "dream_tts"
version = "0.1.0"
edition = "2021"
publish = false

[dependencies]
anyhow = "1"
axum = "0.7"
candle-core = "0.10.2"
candle-nn = "0.10.2"
clap = { version = "4", features = ["derive"] }
fancy-regex = "*"
futures = "0.3"
half = "2"
safetensors = "*"
serde = { version = "1", features = ["derive"] }
serde_json = "1"
tokio = { version = "1", features = ["full"] }
tokio-stream = { version = "0.1", features = ["sync"] }
unicode-normalization = "0.1"
