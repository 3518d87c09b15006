[package]
name = "ophan"
version = "0.1.0"
edition = "2021"
publish = false

[dependencies]
regex = "1"
memchr = "2"
http = "1"
uuid = { version = "1", features = ["v4"] }
serde = { version = "1", features = ["derive"] }
