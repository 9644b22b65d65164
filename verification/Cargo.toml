[package]
name = "troll_names"
version = "0.1.0"
edition = "2021"
publish = false

[dependencies]
rand = "0.9"
csv = "1"
serde = { version = "1", features = ["derive"] }
urlencoding = "2"
