[package]
name = "terminal_renderer"
version = "0.1.0"
edition = "2021"
publish = false

[dependencies]
rand = "0.8"
crossterm = "0.27"
nalgebra = "0.32"
serde = { version = "1", features = ["derive"] }
serde_json = "1"
include_dir = "0.7"
