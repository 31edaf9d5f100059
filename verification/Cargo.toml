[package]
name = "site_counter"
version = "0.1.0"
edition = "2021"
publish = false

[dependencies]
anyhow = "1"
clap = { version = "4", features = ["derive"] }
dashmap = "*"
fs_extra = "1"
num-bigint = { version = "0.4", features = ["serde"] }
parking_lot = "0.12"
regex = "1"
reqwest = "*"
serde_json = "1"
tempfile = "3"
tokio = { version = "1", features = ["macros", "rt-multi-thread", "time"] }
walkdir = "2"
zip = "*"
