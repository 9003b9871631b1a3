[package]
name = "file_downloader"
version = "0.1.0"
edition = "2021"
publish = false

[dependencies]
headers = "=0.4.2"
url = "=2.5.8"
uuid = { version = "=1.29.0", features = ["v4", "serde"] }
reqwest = { version = "=0.13.5", default-features = false, features = ["stream"] }
tokio = { version = "=1.54.1", features = ["rt-multi-thread", "macros", "fs", "io-util", "sync", "time", "net"] }
futures-util = "=0.3.34"
anyhow = "=1.0.104"
serde = { version = "=1.0.229", features = ["derive"] }
serde_json = "=1.0.154"
clap = { version = "=4.6.7", features = ["derive"] }
dirs = "=7.0.0"
log = "=0.4.35"
fern = "=0.7.1"
chrono = "=0.4.45"
crossterm = "=0.29.0"
thiserror = "=2.0.21"
async-channel = "=2.5.0"
tokio-util = "=0.7.20"
axum = "*"
