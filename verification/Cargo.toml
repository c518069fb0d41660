[package]
name = "dragonfly_http"
version = "0.1.0"
edition = "2021"
publish = false

[dependencies]
http-range-header = "=0.4.2"
reqwest = { version = "=0.12.28", default-features = false }
