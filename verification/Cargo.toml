[package]
name = "aegisdb"
version = "0.1.0"
edition = "2021"
publish = false

[dependencies]
rand = "=0.8.8"
serde = { version = "=1.0.229", features = ["derive"] }
bincode = "=1.3.3"
anyhow = "=1.0.104"
thiserror = "=1.0.69"
serde_json = "1"
sysinfo = "0.30"
