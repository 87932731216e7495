[package]
name = "form_core"
version = "0.1.0"
edition = "2021"
publish = false

[dependencies]
validator = { version = "*", features = ["derive"] }
