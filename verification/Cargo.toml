[package]
name = "vb6semantic"
version = "0.1.0"
edition = "2021"
publish = false

[dependencies]
vb6parse = "*"
serde = { version = "1", features = ["derive"] }
thiserror = "*"
