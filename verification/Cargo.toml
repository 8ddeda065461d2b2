[package]
name = "autoreply"
version = "0.1.0"
edition = "2021"
publish = false

[dependencies]
unicode-segmentation = "=1.13.3"
unicode-normalization = "=0.1.26"
serde = { version = "=1.0.229", features = ["derive"] }
serde_json = "=1.0.154"
clap = { version = "=4.6.7", features = ["derive"] }
tokio = { version = "=1.54.1", features = ["rt-multi-thread", "macros", "fs", "io-std", "io-util", "time"] }
reqwest = { version = "=0.12.28", default-features = false, features = ["json", "rustls-tls", "stream"] }
dirs = "=5.0.1"
anyhow = "=1.0.104"
serde_cbor = "=0.11.2"
nucleo-matcher = "=0.3.1"
urlencoding = "=2.1.3"
base64 = "=0.22.1"
sha2 = "=0.10.9"
rand = "=0.8.8"
keyring = "=2.3.3"
tokio-stream = "=0.1.19"
bs58 = "=0.5.1"
serde_bytes = "=0.11.19"
fs2 = "=0.4.3"
ring = "=0.17.14"
