[package]
name = "know_rust"
version = "0.1.0"
edition = "2021"
publish = false

[dependencies]
indexmap = "=2.14.2"
serde = { version = "=1.0.229", features = ["derive"] }
serde_json = "=1.0.154"
clap = { version = "=4.6.7", features = ["derive"] }
toml = "=1.1.8"
walkdir = "=2.5.0"
snafu = "=0.9.2"
liquid = "=0.26.11"
kstring = "=2.0.2"
regex = "=1.13.1"
