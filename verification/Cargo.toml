[package]
name = "pvkr"
version = "0.1.0"
edition = "2021"
publish = false

[dependencies]
ring = "*"
chrono = "*"
clap = { version = "*", features = ["derive"] }
owo-colors = "*"
