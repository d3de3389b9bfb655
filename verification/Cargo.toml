[package]
name = "lanshare"
version = "0.1.0"
edition = "2021"
publish = false

[dependencies]
axum = { version = "0.8", features = ["multipart", "ws"] }
base64 = "0.22"
bcrypt = "0.15"
chrono = "0.4"
clap = { version = "4", features = ["derive"] }
fuser = { version = "0.15", default-features = false }
futures-util = "0.3"
http-body-util = "0.1"
libc = "0.2"
local-ip-address = "0.6"
parking_lot = "0.12"
percent-encoding = "2"
rusqlite = { version = "0.32", features = ["bundled"] }
scopeguard = "1"
serde = { version = "1", features = ["derive"] }
serde_json = "1"
tokio = { version = "1", features = ["full"] }
tokio-tungstenite = "0.24"
tokio-util = { version = "0.7", features = ["io"] }
toml = "0.8"
tracing = "0.1"
tracing-subscriber = { version = "0.3", features = ["env-filter"] }
uuid = { version = "1", features = ["v4"] }
walkdir = "2"
zip = { version = "2", default-features = false, features = ["deflate"] }
