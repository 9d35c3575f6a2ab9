[package]
name = "benchmark"
version = "0.1.0"
edition = "2021"
publish = false

[dependencies]
zune-jpeg = "*"
wabt = "*"
serde = { version = "*", features = ["derive"] }
csv = "*"
clap = { version = "*", features = ["derive"] }
humantime = "*"
anyhow = "*"
log = "*"
env_logger = "*"
libc = "*"
clone3 = "*"
libloading = "*"
tempfile = "*"
