[package]
name = "fast42"
version = "0.1.0"
edition = "2021"
publish = false

[dependencies]
config = "0.13"
futures = "0.3"
reqwest = { version = "=0.11.27", features = ["json"] }
retainer = "0.3"
secrecy = { version = "=0.8.0", features = ["serde"] }
serde = { version = "1", features = ["derive"] }
tokio = { version = "1", features = ["macros", "rt-multi-thread", "time"] }
tower = { version = "=0.4.13", features = ["buffer", "limit", "util"] }
tracing = "0.1"
