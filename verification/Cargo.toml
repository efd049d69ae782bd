[package]
name = "tsunoru"
version = "0.1.0"
edition = "2021"
publish = false

[dependencies]
sha2 = "0.10"
hmac = "0.12"
subtle = "2"
base64 = "0.22"
chrono = { version = "0.4", default-features = false, features = ["std", "alloc", "clock"] }
chrono-tz = "0.10"
uuid = { version = "1", features = ["v4"] }
serde = { version = "1", features = ["derive"] }
serde_json = "1"
http = "1"
url = "2"
argon2 = "0.5"
anyhow = "1"
