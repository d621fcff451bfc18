[package]
name = "dot_herder"
version = "0.1.0"
edition = "2021"
publish = false

[dependencies]
shellexpand = "*"
symlink = "*"
clap = { version = "*", features = ["derive"] }
colored = "*"
dialoguer = "*"
figlet-rs = "*"
indicatif = "*"
serde = { version = "*", features = ["derive"] }
serde_yaml = "*"

[dev-dependencies]
tempfile = "*"
