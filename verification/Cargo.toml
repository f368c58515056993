[package]
name = "xilem_radio"
version = "0.1.0"
edition = "2021"
publish = false

[dependencies]
xilem_core = "*"
masonry = { version = "*", default-features = false }
tracing = { version = "0.1", default-features = false, features = ["std"] }
