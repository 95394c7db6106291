[package]
name = "longboy"
version = "0.1.0"
edition = "2021"
publish = false

[dependencies]
anyhow = "=1.0.104"
config = "=0.15.27"
flume = "=0.11.1"
fnv = "=1.0.7"
quinn = "=0.11.12"
rand = "=0.9.5"
rustls = "=0.23.46"
rustls-native-certs = "=0.8.5"
serde = { version = "=1.0.229", features = ["derive"] }
thunderdome = "=0.6.1"
tokio = { version = "=1.54.1", features = ["full"] }
tokio-util = "=0.7.20"
tracing = "=0.1.44"
