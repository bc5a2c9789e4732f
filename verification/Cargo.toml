[package]
name = "hackerscript"
version = "0.1.0"
edition = "2021"
publish = false

[dependencies]
anyhow = "=1.0.104"
bincode = "=1.3.3"
byteorder = "=1.5.0"
clap = { version = "4", features = ["derive"] }
env_logger = "*"
inkwell = { version = "=0.11.0", features = ["llvm18-1"] }
log = "*"
miette = { version = "=7.6.0", features = ["fancy"] }
pest = "=2.9.4"
pest_derive = "2"
regex = "=1.13.1"
serde = { version = "=1.0.229", features = ["derive"] }
thiserror = "=2.0.21"
