[package]
name = "cyberscope"
version = "0.1.0"
edition = "2021"
publish = false

[dependencies]
anyhow = "=1.0.104"
axum = "=0.8.9"
base64 = "=0.22.1"
chrono = { version = "=0.4.45", default-features = false, features = ["clock", "std"] }
dotenvy = "=0.15.7"
futures-util = "=0.3.34"
ipnet = "=2.12.2"
mime_guess = "=2.0.5"
reqwest = { version = "=0.12.28", default-features = false, features = ["json", "stream"] }
rust-embed = { version = "=8.13.0", features = ["interpolate-folder-path"] }
rustix = { version = "=1.1.6", features = ["process"] }
secrecy = "=0.10.3"
serde = { version = "=1.0.229", features = ["derive"] }
serde_json = "=1.0.154"
sqlx = { version = "=0.8.6", default-features = false, features = ["runtime-tokio", "sqlite", "migrate", "macros"] }
tempfile = "=3.27.0"
thiserror = "=2.0.21"
tokio = { version = "=1.54.1", features = ["macros", "rt-multi-thread", "net", "signal", "time", "sync", "fs"] }
tokio-util = "=0.7.20"
tracing = "=0.1.44"
tracing-subscriber = { version = "=0.3.23", features = ["env-filter"] }
url = "=2.5.8"
uuid = { version = "=1.29.0", features = ["v4"] }

[dev-dependencies]
csv = "1"
