[package]
name = "saur"
version = "0.1.0"
edition = "2021"
publish = false

[dependencies]
alpm = "*"
alpm-utils = "*"
nix = { version = "*", features = ["user"] }
serde = { version = "1", features = ["derive"] }
toml = "*"
