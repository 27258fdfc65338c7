[package]
name = "term_stream"
version = "0.1.0"
edition = "2021"
publish = false

[dependencies]
anyhow = "1"
axum = { version = "*", features = ["ws"] }
base64 = "*"
bytes = "1"
clap = { version = "4", features = ["derive"] }
memchr = "2"
serde = { version = "1", features = ["derive"] }
serde_json = "1"
thiserror = "*"
tokio = { version = "1", features = ["full"] }
tower-http = { version = "*", features = ["fs"] }
unicode-width = "*"
unsigned-varint = "*"
zstd = "*"
