[package]
name = "catacomb"
version = "0.1.0"
edition = "2021"
publish = false

[dependencies]
argon2 = "=0.5.3"
rand = "=0.8.8"
serde = { version = "=1.0.229", features = ["derive"] }
serde_json = "=1.0.154"
toml = "=0.8.23"
libc = "=0.2.191"
rusqlite = { version = "0.32", features = ["bundled"] }
