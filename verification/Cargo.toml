[package]
name = "smoothie"
version = "0.1.0"
edition = "2021"
publish = false

[dependencies]
dashmap = "=6.2.1"
serde_json = "=1.0.154"
serde = { version = "1", features = ["derive"] }
yaml_serde = "=0.10.7"
async-trait = "0.1"
bytes = "1"
clap = { version = "4", features = ["derive"] }
tracing = "0.1"
tikv-jemallocator = "=0.7.0"
praxis-proxy = { version = "=0.7.5", default-features = false }
praxis-proxy-filter = { version = "=0.7.5", default-features = false }
