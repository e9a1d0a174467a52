[package]
name = "kord"
version = "0.1.0"
edition = "2021"
publish = false

[dependencies]
anyhow = "1"
cpal = "0.15"
futures-timer = "3"

[dev-dependencies]
rand = "0.8"
