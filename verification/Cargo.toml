[package]
name = "work"
version = "0.1.0"
edition = "2021"
publish = false

[dependencies]
regex = "1"
md5 = "0.7"
hls_m3u8 = "0.4"
url = "2"
clap = { version = "3", features = ["derive"] }
serde = { version = "1", features = ["derive"] }
serde_derive = "1"
serde_json = "1"
colorful = "0.2"
openssl = "0.10"
socks = "0.3"
lazy_static = "1"
tokio = { version = "1", features = ["rt-multi-thread", "macros"] }
reqwest = "0.11"
axum = "0.5"
tracing = "0.1"
tracing-subscriber = "0.3"
actix-web = { version = "4", default-features = false, features = ["macros"] }
