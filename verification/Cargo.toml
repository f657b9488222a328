[package]
name = "recall"
version = "0.1.0"
edition = "2021"
publish = false

[dependencies]
chrono = "0.4"
colored = "*"
serde = "*"
serde_derive = "*"
shellexpand = "*"
sqlite = "*"
structopt = "0.3"
tempfile = "*"
toml = "*"
