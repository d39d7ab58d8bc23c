[package]
name = "pwdmgr"
version = "0.1.0"
edition = "2021"
publish = false

[dependencies]
aes-gcm = "0.10"
argon2 = "0.5"
rand = "0.8"
serde = { version = "1", features = ["derive"] }
serde_json = "1"
serde_yaml = "0.9"
csv = "1"
clap = { version = "4", features = ["derive"] }
colored = "2"
chrono = { version = "0.4", features = ["serde"] }
walkdir = "2"
anyhow = "1"
sysinfo = "0.31"
