[package]
name = "atelierbuch"
version = "0.1.0"
edition = "2021"
publish = false

[dependencies]
argon2 = "0.5"
rand = "0.8"
rusqlite = { version = "0.32", features = ["bundled"] }
chrono = "0.4"
dirs = "5"
log = "0.4"
serde = { version = "1", features = ["derive"] }
thiserror = "1"
