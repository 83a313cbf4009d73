[package]
name = "tileworld"
version = "0.1.0"
edition = "2021"
publish = false

[dependencies]
noise = "0.8"
crossterm = "0.26"
serde = { version = "1", features = ["derive"] }
