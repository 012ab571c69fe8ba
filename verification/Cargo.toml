[package]
name = "rust-pipeline"
version = "0.1.0"
edition = "2021"
publish = false

[dependencies]
async-trait = "0.1"
chacha20poly1305 = "0.10"
getrandom = "0.2"
quick-xml = "0.37"
serde = { version = "1", features = ["derive"] }
serde_yaml = "0.9"
thiserror = "1"
tokio = { version = "1", features = ["macros", "rt-multi-thread", "sync", "time"] }
tracing = "0.1"
uuid = { version = "1", features = ["v4"] }
