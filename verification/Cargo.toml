[package]
name = "crypto_latency_benchmark"
version = "0.1.0"
edition = "2021"
publish = false

[dependencies]
base64 = "0.21"
ring = "0.17"
chrono = "0.4"
colored = "*"
futures-util = "0.3"
quanta = "*"
rustls = { version = "0.23", default-features = false, features = ["ring", "std", "tls12", "logging"] }
serde = { version = "1", features = ["derive"] }
serde_json = "1"
statrs = "*"
tokio = { version = "1", features = ["rt-multi-thread", "macros", "net", "time", "io-util"] }
tokio-rustls = { version = "0.26", default-features = false, features = ["ring", "tls12", "logging"] }
tokio-tungstenite = { version = "*", features = ["rustls-tls-webpki-roots"] }
tungstenite = "*"
webpki-roots = "0.26"
