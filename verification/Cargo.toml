[package]
name = "packman"
version = "0.1.0"
edition = "2021"
publish = false

[dependencies]
bincode = "1"
crc32fast = "1"
nanoid = "0.4"
serde = { version = "1", features = ["derive"] }

[dev-dependencies]
serde_json = "1"
