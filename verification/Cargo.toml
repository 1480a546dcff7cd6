[package]
name = "emmyrc_paths"
version = "0.1.0"
edition = "2021"
publish = false

[dependencies]
regex-syntax = { version = "0.8", default-features = false, features = ["unicode-perl"] }
dirs = "*"
log = "0.4"
serde = { version = "1", features = ["derive"] }
schemars = "*"

[dev-dependencies]
regex = "1"
