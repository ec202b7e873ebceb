[package]
name = "cratepro"
version = "0.1.0"
edition = "2021"
publish = false

[dependencies]
chrono = { version = "0.4", default-features = false, features = ["clock", "std"] }
anyhow = "1"
tokio = { version = "1", features = ["process", "fs", "io-util", "rt-multi-thread", "macros"] }
tracing = "0.1"
serde = { version = "1", features = ["derive"] }
serde_json = "1"
async-trait = "0.1"
sea-orm-migration = { version = "1", default-features = false }
