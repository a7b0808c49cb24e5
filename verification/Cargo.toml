[package]
name = "concurrency"
version = "0.1.0"
edition = "2021"

[dependencies]
anyhow = "=1.0.104"
oneshot = { version = "=0.1.13", default-features = false, features = ["std"] }
