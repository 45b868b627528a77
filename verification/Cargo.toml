[package]
name = "memory_core"
version = "0.1.0"
edition = "2021"
publish = false

[dependencies]
lru = "*"
uuid = { version = "1", features = ["v4", "serde"] }
chrono = { version = "0.4", features = ["serde"] }
serde = { version = "1", features = ["derive"] }
serde_json = "1"
anyhow = "1"
thiserror = "*"
tracing = "0.1"
parking_lot = "*"
chaotic_semantic_memory = "*"

[dev-dependencies]
proptest = "1"
serial_test = "*"
