[package]
name = "polarwarp"
version = "0.1.0"
edition = "2021"
publish = false

[dependencies]
anyhow = "*"
chrono = "*"
clap = { version = "*", features = ["derive"] }
csv = "*"
num-format = "*"
zstd = "*"
