[package]
name = "enigma_breaker"
version = "0.1.0"
edition = "2021"
publish = false

[dependencies]
enigma = "*"
itertools = "*"
thiserror = "*"
log = "*"
clap = { version = "*", features = ["derive"] }
anyhow = "*"
colog = "*"
csv = "*"
threadpool = "*"
