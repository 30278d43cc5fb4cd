[package]
name = "mpatch"
version = "0.1.0"
edition = "2021"
publish = false

[dependencies]
similar = "2"
clap = { version = "4", features = ["derive"] }
