[package]
name = "blobcache"
version = "0.1.0"
edition = "2021"
publish = false

[dependencies]
brotli = "*"
uuid = { version = "*", features = ["v4"] }
rocket = { version = "*", features = ["json"] }
serde = { version = "*", features = ["derive"] }
serde_json = "*"
rbase64 = "*"
