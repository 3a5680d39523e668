[package]
name = "oxen_core"
version = "0.1.0"
edition = "2021"
publish = false

[dependencies]
xxhash-rust = { version = "=0.8.19", features = ["xxh3"] }
uuid = { version = "=1.27.0", features = ["v4"] }
chrono = "=0.4.45"
url = "=2.5.8"
