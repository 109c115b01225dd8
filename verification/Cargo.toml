[package]
name = "mcp-native-core"
version = "0.1.0"
edition = "2021"
publish = false

[dependencies]
async-trait = "0.1"
candle-core = { version = "0.11", default-features = false }
candle-nn = { version = "0.11", default-features = false }
candle-transformers = { version = "0.11", default-features = false }
dashmap = "6.2"
hf-hub = { version = "0.5", default-features = false, features = ["tokio", "rustls-tls"] }
memmap2 = "0.9"
notify = { version = "8.2", default-features = false }
rand = "0.10"
regex = "1.13"
serde = { version = "1", features = ["derive"] }
serde_json = "1"
statrs = { version = "0.19", default-features = false }
tokenizers = { version = "*", default-features = false, features = ["fancy-regex"] }
tokio = { version = "1", features = ["rt-multi-thread", "macros", "io-std", "io-util", "sync", "time"] }
