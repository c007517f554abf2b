[package]
name = "omnimind-server"
version = "0.1.0"
edition = "2021"
publish = false

[dependencies]
base64 = "0.22"
multipart-2021 = { version = "*", default-features = false, features = ["server"] }
serde = { version = "1", features = ["derive"] }
serde_json = "1"
tiny_http = "0.12"
uuid = { version = "1", features = ["v4"] }
walkdir = "2"
