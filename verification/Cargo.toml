[package]
name = "fastmcp-server"
version = "0.1.0"
edition = "2021"
publish = false

[dependencies]
base64 = "0.22"
sha2 = "0.10"
hmac = "0.12"
getrandom = "0.3"
serde = { version = "1", features = ["derive"] }
serde_json = "1"
