[package]
name = "field_align"
version = "0.1.0"
edition = "2021"
publish = false

[dependencies]
dashmap = "5.5"
serde_json = "1"
tokio = { version = "1", features = ["io-std", "macros", "rt-multi-thread"] }
tower-lsp = "0.20"
tracing-subscriber = "0.3"
