[package]
name = "localstream-core"
version = "0.1.0"
edition = "2021"
publish = false

[dependencies]
base64 = "=0.22.1"
getrandom = "=0.3.4"
sha2 = "=0.10.9"
subtle = "=2.6.1"
uuid = { version = "=1.29.0", features = ["v4", "v5"] }
rcgen = "=0.14.10"
time = "=0.3.55"
rustls = { version = "=0.23.46", default-features = false, features = ["ring", "std"] }
keyring = "=3.6.3"
rusqlite = { version = "=0.37.0", features = ["bundled"] }
serde = { version = "=1.0.229", features = ["derive"] }
serde_json = "=1.0.154"
thiserror = "=2.0.21"
tokio = { version = "=1.54.1", features = ["full"] }
tokio-util = "=0.7.20"
axum = "=0.8.9"
walkdir = "=2.5.0"

[dev-dependencies]
x509-parser = { version = "=0.18.1", features = ["verify"] }
