[package]
name = "winrehome"
version = "0.1.0"
edition = "2021"
publish = false

[dependencies]
anyhow = "1"
crc32fast = "1"
dirs = "*"
flate2 = "1"
serde = { version = "1", features = ["derive"] }
serde_json = "1"
walkdir = "2"
winreg = "*"
