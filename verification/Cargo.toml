[package]
name = "is_pushed"
version = "0.1.0"
edition = "2021"
publish = false

[dependencies]
clap = { version = "4", features = ["derive"] }
env_logger = "0.11"
git2 = { version = "0.20", default-features = false }
log = "0.4"
