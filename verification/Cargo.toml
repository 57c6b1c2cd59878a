[package]
name = "vitadecompiler"
version = "0.1.0"
edition = "2021"
publish = false

[dependencies]
anyhow = "1"
capstone = "0.12"
clap = { version = "4", features = ["derive"] }
flate2 = "1"
goblin = "0.8"
serde = { version = "1", features = ["derive"] }
serde_yaml = "0.9"
