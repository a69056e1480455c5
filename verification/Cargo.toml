[package]
name = "shotr_core"
version = "0.1.0"
edition = "2021"
publish = false

[dependencies]
image = { version = "=0.25.10", default-features = false, features = ["png", "jpeg", "webp"] }
serde = { version = "=1.0.229", features = ["derive"] }
global-hotkey = "*"
