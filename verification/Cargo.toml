[package]
name = "rusty_torrent"
version = "0.1.0"
edition = "2021"
publish = false

[dependencies]
base16ct = { version = "*", features = ["alloc"] }
reqwest = { version = "*", default-features = false }
sha1 = "*"
tokio = { version = "*", features = ["rt-multi-thread", "macros"] }
tokio-util = "*"
urlencoding = "*"
