[package]
name = "centaeris_runtime_host"
version = "0.1.0"
edition = "2021"
publish = false

[dependencies]
base64 = "=0.22.1"
libc = "=0.2.191"
nono = "=0.81.0"
reqwest = { version = "=0.12.28", default-features = false, features = ["json", "stream", "http2"] }
serde = { version = "=1.0.229", features = ["derive"] }
serde_json = { version = "=1.0.154", features = ["preserve_order"] }
sha2 = "=0.10.9"
tokio = { version = "=1.54.1", features = ["full"] }
