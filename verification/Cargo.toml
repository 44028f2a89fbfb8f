[package]
name = "seeed"
version = "0.1.0"
edition = "2021"
publish = false

[dependencies]
clap = { version = "4", features = ["derive"] }
colored = "2"
minijinja = "*"
regex = "1"
ssh2 = "0.9"
thiserror = "1"
uuid = { version = "1", features = ["v4"] }
