[package]
name = "filesync"
version = "0.1.0"
edition = "2021"
publish = false

[dependencies]
unicode-normalization = "=0.1.26"
blake3 = "=1.8.7"
sha2 = "=0.10.9"
chrono = { version = "=0.4.45", default-features = false, features = ["clock"] }
walkdir = "=2.5.0"
bytes = "=1.12.1"
tokio-util = { version = "=0.7.20", features = ["codec"] }
uuid = { version = "=1.29.0", features = ["v4", "serde"] }
serde = { version = "=1.0.229", features = ["derive"] }
rmp-serde = "=1.3.1"
futures-util = { version = "=0.3.34", features = ["sink"] }
tokio = { version = "=1.54.1", features = ["io-util", "net", "sync", "rt", "time"] }
pem = "=3.0.6"
serde_json = "=1.0.154"
hostname = "=0.4.2"
mdns-sd = "=0.21.7"
ring = "0.17"
rcgen = "0.13"
rustls = { version = "0.23", default-features = false, features = ["ring", "std", "tls12", "logging"] }
tokio-rustls = { version = "0.26", default-features = false, features = ["ring", "tls12", "logging"] }
get_if_addrs = "0.5"
