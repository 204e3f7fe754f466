[package]
name = "tau"
version = "0.1.0"
edition = "2021"
publish = false

[dependencies]
anyhow = "*"
clap = "*"
colored = "*"
dialoguer = "*"
directories = "*"
dirs = "*"
fs_extra = "*"
serde = { version = "*", features = ["derive"] }
serde_json = "*"
subprocess = "*"
