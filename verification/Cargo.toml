[package]
name = "proxy_finder"
version = "0.1.0"
edition = "2021"
publish = false

[dependencies]
num_cpus = "*"
clap = "*"
futures = "*"
tokio = { version = "*", features = ["rt-multi-thread", "macros", "fs", "io-util", "sync", "time"] }
reqwest = { version = "*", default-features = false }
