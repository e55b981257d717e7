[package]
name = "cargo_bak"
version = "0.1.0"
edition = "2021"
publish = false

[dependencies]
zip = { version = "0.6", default-features = false, features = ["zstd"] }
walkdir = "2"
clap = { version = "4", features = ["derive"] }
anyhow = "1"
