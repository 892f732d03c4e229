[package]
name = "flappy_rust"
version = "0.1.0"
edition = "2021"
publish = false

[dependencies]
dirs = "5"
macroquad = "0.4"
serde = { version = "1", features = ["derive"] }
serde_json = "1"
web-sys = { version = "0.3", features = ["Window", "Storage"] }
