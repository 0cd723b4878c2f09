[package]
name = "stream_codec"
version = "0.1.0"
edition = "2021"
publish = false

[dependencies]
chrono = "0.4"
url = "2"

[dev-dependencies]
serde_json = "1"
uuid = "1"
