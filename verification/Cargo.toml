[package]
name = "source_index"
version = "0.1.0"
edition = "2021"
publish = false

[dependencies]
unicode-width = "=0.1.11"
rustc-hash = "=2.1.3"
ahash = "=0.8.12"
