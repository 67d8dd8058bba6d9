[package]
name = "crc_dir"
version = "0.1.0"
edition = "2021"
publish = false

[dependencies]
anyhow = "*"
clap = { version = "*", features = ["derive"] }
crc32fast = "*"
indicatif = "*"
jwalk = "*"
rayon = "*"
