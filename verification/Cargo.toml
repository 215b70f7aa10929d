[package]
name = "vekta"
version = "0.1.0"
edition = "2021"
publish = false

[dependencies]
anyhow = "=1.0.104"
fastembed = { version = "=4.9.1", default-features = false, features = ["hf-hub-native-tls", "ort-load-dynamic"] }
image = "=0.25.10"
serde = { version = "=1.0.229", features = ["derive"] }
serde_json = "=1.0.154"
sysinfo = "=0.29.11"
