[package]
name = "celeste_timer"
version = "0.1.0"
edition = "2021"
publish = false

[dependencies]
anyhow = "*"
crossterm = { version = "*", features = ["event-stream"] }
futures = "*"
notify = "*"
shellexpand = "*"
