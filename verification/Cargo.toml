[package]
name = "rustorrent"
version = "0.1.0"
edition = "2021"
publish = false

[dependencies]
rand = "0.8"
url = "2"
tokio = { version = "1", features = ["net", "io-util", "io-std", "macros", "rt-multi-thread", "time"] }
structopt = "0.3"
indicatif = "0.17"
reqwest = { version = "0.11", default-features = false }
