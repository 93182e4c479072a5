[package]
name = "reclip"
version = "0.1.0"
edition = "2021"
publish = false

[dependencies]
anyhow = "1"
arboard = "3"
clap = { version = "4", features = ["derive"] }
directories = "*"
env_logger = "*"
fs2 = "0.4"
gtk4 = "*"
image = { version = "*", default-features = false, features = ["png"] }
log = "0.4"
rusqlite = { version = "*", features = ["bundled"] }
