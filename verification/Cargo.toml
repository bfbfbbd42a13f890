[package]
name = "zed_java"
version = "6.8.0"
edition = "2021"
publish = false

[dependencies]
base64 = "0.22"
hex = "0.4"
percent-encoding = "2"
prost = "*"
regex = "1"
serde = { version = "1", features = ["derive"] }
serde_json = "1"
sha1 = "0.10"
tokio = { version = "1", features = ["rt-multi-thread", "net", "io-util", "io-std", "sync", "time", "process", "macros"] }
zed_extension_api = "*"
