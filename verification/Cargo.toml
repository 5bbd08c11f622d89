[package]
name = "chunkdl"
version = "0.1.0"
edition = "2021"
publish = false

[dependencies]
clap = { version = "*", features = ["derive"] }
dirs = "*"
futures = "*"
indicatif = "*"
percent-encoding = "*"
reqwest = { version = "*", default-features = false }
tempfile = "*"
tokio = { version = "*", features = ["macros", "rt-multi-thread", "fs", "io-util"] }
