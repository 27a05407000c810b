[package]
name = "doot"
version = "0.1.0"
edition = "2021"
publish = false

[dependencies]
anyhow = "*"
bpaf = { version = "*", features = ["derive"] }
colored = "*"
env_logger = "*"
glob = "*"
hex = "*"
serde = { version = "*", features = ["derive"] }
serde_yaml = "*"
sha2 = "*"
shellexpand = "*"
similar = "*"
walkdir = "*"
