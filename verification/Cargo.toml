[package]
name = "storagehub_client"
version = "0.1.0"
edition = "2021"
publish = false

[dependencies]
priority-queue = "2"
lru = "0.12"
rand = "0.8"
hex = "0.4"
anyhow = "1"
log = "0.4"
serde = { version = "1", features = ["derive"] }
parity-scale-codec = { version = "3", features = ["derive"] }
ordered-float = "4"
