[package]
name = "media_cleanup"
version = "0.1.0"
edition = "2021"
publish = false

[dependencies]
mime_guess = "*"
serde = "*"
serde_yaml = "*"
zstd = "*"
clap = { version = "*", features = ["derive"] }
tokio = { version = "*", features = ["rt-multi-thread", "macros", "fs"] }
walkdir = "*"
