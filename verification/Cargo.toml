[package]
name = "aka"
version = "0.1.0"
edition = "2021"
publish = false

[dependencies]
redb = "=4.3.0"
owo-colors = { version = "=4.4.0", features = ["supports-colors"] }
clap = { version = "=4.6.7", features = ["derive"] }
dirs = "=7.0.0"
anyhow = "=1.0.104"
thiserror = "=2.0.21"

[dev-dependencies]
tempfile = "=3.27.0"
