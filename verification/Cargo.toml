[package]
name = "dns_fallback"
version = "0.1.0"
edition = "2021"
publish = false

[dependencies]
hickory-resolver = "*"
reqwest = { version = "*", default-features = false }
