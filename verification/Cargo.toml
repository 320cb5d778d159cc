[package]
name = "tuning_tool"
version = "0.1.0"
edition = "2021"
publish = false

[dependencies]
midly = "*"
rust_decimal = "*"
num = "*"
anyhow = "*"
clap = { version = "4", features = ["derive"] }
env_logger = "*"
log = "*"
midir = "*"
path-absolutize = "*"
which = "*"
tempfile = "*"
thiserror = "*"
