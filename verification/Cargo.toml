[package]
name = "ytermusic"
version = "0.1.0"
edition = "2021"
publish = false

[dependencies]
flume = "=0.11.1"
log = "=0.4.35"
rusty_ytdl = "=0.7.4"
serde = { version = "=1.0.229", features = ["derive"] }
serde_json = "=1.0.154"
tokio = { version = "=1.54.1", features = ["io-util", "macros", "process", "rt"] }
