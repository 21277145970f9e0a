[package]
name = "glide"
version = "0.1.0"
edition = "2021"
publish = false

[dependencies]
anyhow = "1"
objc2-core-foundation = { version = "0.3", default-features = false, features = ["std", "CFCGTypes"] }
redact = { version = "*", features = ["serde"] }
ron = "*"
serde = { version = "1", features = ["derive"] }
serde_with = "3"
tokio = { version = "1", features = ["macros", "rt", "sync", "time"] }
tracing = "0.1"
