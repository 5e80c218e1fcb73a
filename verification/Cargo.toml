[package]
name = "piui"
version = "0.1.0"
edition = "2021"
publish = false

[dependencies]
serde = { version = "=1.0.229", features = ["derive"] }
serde_json = "=1.0.154"
sha2 = "=0.10.9"
rusqlite = { version = "=0.41.1", features = ["bundled", "functions"] }
uuid = { version = "=1.29.0", features = ["v4"] }
thiserror = "=2.0.21"
libc = "=0.2.191"
notify = "*"
