[package]
name = "watcher_knight"
version = "0.1.0"
edition = "2021"
publish = false

[dependencies]
glob = "0.3"
serde_json = "1"
walkdir = "2"
clap = { version = "4", features = ["derive"] }
git2 = { version = "*", default-features = false }
