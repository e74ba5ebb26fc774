[package]
name = "kuroe"
version = "0.1.0"
edition = "2021"
publish = false

[dependencies]
anyhow = "1"
clap = { version = "4", features = ["derive"] }
env_logger = "0.11"
indicatif = "0.17"
log = "0.4"
regex = "1"
tabled = "0.15"
tempfile = "3"
wait-timeout = "0.2"
