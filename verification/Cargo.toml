[package]
name = "bittorrent"
version = "0.1.0"
edition = "2021"
publish = false

[dependencies]
clap = { version = "*", features = ["derive"] }
hex = "*"
reqwest = { version = "*", default-features = false, features = ["blocking"] }
serde_json = "*"
sha1 = "*"
