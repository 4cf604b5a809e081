[package]
name = "jotin"
version = "0.1.0"
edition = "2021"
publish = false

[dependencies]
uuid = { version = "1", features = ["v4"] }
chrono = "0.4"
arboard = { version = "3", default-features = false }
