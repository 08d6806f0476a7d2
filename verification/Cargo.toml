[package]
name = "mkinitcpio_compression_benchmark"
version = "0.1.0"
edition = "2021"
publish = false

[dependencies]
anyhow = "*"
byte-unit = "*"
clap = { version = "*", features = ["derive"] }
env_logger = "*"
libc = "*"
log = "*"
nix = { version = "*", features = ["user", "process", "fs"] }
tempfile = "*"
