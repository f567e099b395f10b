[package]
name = "stitchlands"
version = "0.1.0"
edition = "2021"
publish = false

[dependencies]
anyhow = "1"
clap = { version = "4", features = ["derive"] }
env_logger = "*"
glam = "*"
log = "0.4"
ron = "*"
roxmltree = "*"
serde = { version = "1", features = ["derive"] }
walkdir = "2"
