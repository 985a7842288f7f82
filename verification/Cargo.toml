[package]
name = "seedwing_policy"
version = "0.1.0"
edition = "2021"
publish = false

[dependencies]
serde_json = "1"
walkdir = "2"
tokio = { version = "1", features = ["fs", "io-util", "rt-multi-thread", "macros"] }
clap = { version = "4", features = ["derive"] }
actix-web = "4"
async-mutex = "1.4"
futures-util = "0.3"
