[package]
name = "svgcard"
version = "0.1.0"
edition = "2021"
publish = false

[dependencies]
anyhow = "=1.0.104"
clap = { version = "=4.6.7", features = ["derive"] }
regex-syntax = { version = "=0.8.11", features = ["unicode-perl"] }
serde = { version = "=1.0.229", features = ["derive"] }
toml = "=0.8.23"
xml-rs = "=0.8.29"

[dev-dependencies]
regex = "=1.13.1"
