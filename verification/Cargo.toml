[package]
name = "soulful"
version = "0.1.0"
edition = "2021"
publish = false

[dependencies]
url = "*"
reqwest = { version = "*", default-features = false, features = ["json"] }
tokio = { version = "*", features = ["rt-multi-thread", "macros", "time", "sync", "process"] }
serde = { version = "*", features = ["derive"] }
serde_json = "*"
chrono = "*"
tracing = "*"
