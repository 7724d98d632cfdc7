[package]
name = "amcrust"
version = "0.1.0"
edition = "2021"
publish = false

[dependencies]
base64 = "0.22"
bytes = "1"
chacha20poly1305 = "0.10"
chrono = "0.4"
clap = { version = "4", features = ["derive", "env"] }
digest_auth = "0.3"
dotenvy = "0.15"
env_logger = "0.11"
futures = "0.3"
hkdf = "0.12"
hyper = { version = "0.14", features = ["server", "http1", "tcp", "client"] }
libmdns = "*"
log = "0.4"
md-5 = "0.10"
rand = "0.8"
reqwest = { version = "0.12", default-features = false, features = ["stream"] }
serde = { version = "1", features = ["derive"] }
serde_json = "1"
sha2 = "0.10"
tokio = { version = "1", features = ["full"] }
uuid = "1"
webrtc-srtp = "*"
