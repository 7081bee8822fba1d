[package]
name = "rt"
version = "0.1.0"
edition = "2021"
publish = false

[dependencies]
base64 = "*"
clap = { version = "*", features = ["derive"] }
command-fds = "*"
os_pipe = "*"
owo-colors = "*"
serde = { version = "*", features = ["derive"] }
serde_json = "*"
walkdir = "*"
