[package]
name = "torrentwork"
version = "0.1.0"
edition = "2021"
publish = false

[dependencies]
sha1 = "*"
hex = "*"
urlencoding = "*"
url = "*"
regex = "*"
magnet-url = "*"
serde = { version = "*", features = ["derive"] }
serde_bencode = "*"
serde_bytes = "*"
reqwest = { version = "*", default-features = false }
tokio = { version = "*", features = ["rt-multi-thread", "net", "io-util", "time", "macros"] }
