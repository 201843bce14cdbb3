[package]
name = "vcs_provider"
version = "0.1.0"
edition = "2021"
publish = false

[dependencies]
anyhow = "1.0"
base64 = "0.22"
log = "0.4"
parking_lot = "0.12"
serde = { version = "1.0", features = ["derive"] }
serde_json = "1.0"
smol = "2.0"
uuid = { version = "1.0", features = ["v5"] }
