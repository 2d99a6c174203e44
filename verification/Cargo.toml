[package]
name = "fgbgg"
version = "0.1.0"
edition = "2021"
publish = false

[dependencies]
clap = "2"
image = "0.24"
opencv = "0.49"
rand = "0.8"
serde = { version = "1", features = ["derive"] }
toml = "0.5"
