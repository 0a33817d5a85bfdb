[package]
name = "nvr_web"
version = "0.1.0"
edition = "2021"
publish = false

[dependencies]
base64 = "*"
http = "*"
memchr = "*"
ring = "*"
serde = { version = "*", features = ["derive"] }
serde_json = "*"
url = "*"
uuid = "*"
