[package]
name = "uf2_hash"
version = "0.1.0"
edition = "2021"
publish = false

[dependencies]
anyhow = "=1.0.104"
bytes = "=1.12.1"
clap = { version = "=4.6.7", features = ["derive"] }
sha2 = "=0.11.1"
