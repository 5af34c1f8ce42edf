[package]
name = "brandsnap"
version = "0.1.0"
edition = "2021"
publish = false

[dependencies]
scraper = "*"
url = "*"
serde = { version = "*", features = ["derive"] }
tokio = { version = "*", features = ["sync", "time", "rt", "rt-multi-thread", "macros"] }
reqwest = { version = "*", default-features = false }
dirs = "*"
open = "*"
