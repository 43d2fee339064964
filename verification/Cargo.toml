[package]
name = "pinger"
version = "0.1.0"
edition = "2021"
publish = false

[dependencies]
anyhow = "=1.0.104"
base64 = "=0.23.1"
chrono = "=0.4.45"
crc-fast = "=1.10.0"
futures = "=0.3.34"
reqwest = "=0.13.5"
scylla = { version = "=1.9.0", features = ["chrono-04"] }
serde = { version = "=1.0.229", features = ["derive"] }
serde_json = "=1.0.151"
tokio = { version = "=1.53.2", features = ["full"] }
uuid = "=1.27.0"
