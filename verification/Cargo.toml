[package]
name = "mcp2cli"
version = "0.1.0"
edition = "2021"
publish = false

[dependencies]
anyhow = "1"
async-trait = "0.1"
axum = "0.7"
base64 = "0.22"
clap = { version = "4", features = ["derive"] }
dirs = "5"
eventsource-stream = "0.2"
futures-util = "0.3"
glob-match = "0.2"
hex = "0.4"
rand = "0.8"
regex = "1"
reqwest = { version = "0.12", default-features = false, features = ["json", "multipart", "stream", "rustls-tls"] }
serde = { version = "1", features = ["derive"] }
serde_json = "1"
sha2 = "0.10"
thiserror = "1"
tokio = { version = "1", features = ["full"] }
url = "2"
urlencoding = "2"
uuid = { version = "1", features = ["v4"] }
which = "6"
yaml-rust2 = "0.8"
