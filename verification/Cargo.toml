[package]
name = "pokeball"
version = "0.1.0"
edition = "2021"
publish = false

[dependencies]
image = { version = "*", default-features = false, features = ["jpeg", "png", "gif"] }
rusqlite = { version = "*", features = ["bundled"] }
serde_json = "*"
termios = "*"
