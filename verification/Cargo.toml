[package]
name = "qwen3_backend"
version = "0.1.0"
edition = "2021"
publish = false

[dependencies]
ic-cdk = "*"
ic-stable-structures = "*"
candid = "*"
serde = { version = "*", features = ["derive"] }
candle-core = "*"
candle-transformers = "*"
tokenizers = "*"
