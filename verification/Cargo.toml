[package]
name = "limebase"
version = "0.1.0"
edition = "2021"
publish = false

[dependencies]
dashmap = "*"
anyhow = "*"

[dev-dependencies]
rand = "*"
