[package]
name = "hyde_ext"
version = "0.1.0"
edition = "2021"
publish = false

[dependencies]
clap = "*"
colored = "*"
dialoguer = "*"
regex = "*"
serde = { version = "*", features = ["derive"] }
toml = "*"
walkdir = "*"
