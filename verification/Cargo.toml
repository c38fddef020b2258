[package]
name = "globserve"
version = "0.1.0"
edition = "2021"
publish = false

[dependencies]
glob = "0.3"
clap = { version = "4", features = ["derive"] }
tide = "0.16"
async-std = { version = "1", features = ["attributes"] }
