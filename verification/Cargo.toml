[package]
name = "qpack"
version = "0.1.0"
edition = "2021"
publish = false

[dependencies]
bytes = "1"
quinn-proto = { version = "*", default-features = false }
