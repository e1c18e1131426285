[package]
name = "coder"
version = "0.1.0"
edition = "2021"
publish = false

[dependencies]
ropey = { version = "1", default-features = false, features = ["simd"] }
serde = { version = "1", features = ["derive"] }
serde_json = { version = "1", features = ["preserve_order", "arbitrary_precision"] }
toml = "0.8"
crossterm = "0.28"
ratatui = "0.29"
