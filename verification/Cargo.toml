[package]
name = "irene"
version = "0.1.0"
edition = "2021"
publish = false

[dependencies]
anyhow = "1"
clap = { version = "4", features = ["derive"] }
libc = "0.2"
niri-ipc = "*"
serde = { version = "1", features = ["derive"] }
serde_json = "1"
