[package]
name = "chatcmd-runtime"
version = "0.1.0"
edition = "2021"
publish = false

[dependencies]
base64 = "=0.22.1"
sha2 = "=0.10.9"
hmac = "=0.12.1"
png = "=0.17.16"
uuid = { version = "=1.29.0", features = ["v4"] }
serde = { version = "=1.0.229", features = ["derive"] }
serde_json = "=1.0.154"
reqwest = { version = "=0.12.28", default-features = false }
globset = "0.4"
regex = "1"
