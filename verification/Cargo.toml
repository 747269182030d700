[package]
name = "modernfs_core"
version = "0.1.0"
edition = "2021"
publish = false

[dependencies]
anyhow = "1"
bitvec = "1"
clap = { version = "4", features = ["derive"] }
colored = "2"
indicatif = "0.17"
libc = "0.2"

[dev-dependencies]
tempfile = "3"
