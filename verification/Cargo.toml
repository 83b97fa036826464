[package]
name = "aggbook"
version = "0.1.0"
edition = "2021"
publish = false

[dependencies]
anyhow = "=1.0.104"
arc-swap = "=1.9.3"
async-stream = "=0.3.6"
clap = { version = "=4.6.7", features = ["derive"] }
dashmap = "=6.2.1"
futures = "=0.3.34"
futures-util = { version = "=0.3.34", features = ["sink"] }
humantime = "=2.4.0"
prost = "=0.13.5"
rustls = { version = "=0.23.46", default-features = false, features = ["ring", "std", "tls12"] }
serde_json = "=1.0.154"
tokio = { version = "=1.54.1", features = ["full"] }
tokio-stream = "=0.1.19"
tokio-tungstenite = { version = "=0.26.2", features = ["rustls-tls-webpki-roots"] }
tonic = "=0.13.1"
tracing = "=0.1.44"
tracing-subscriber = { version = "=0.3.23", features = ["env-filter"] }
