[package]
name = "minisqlite"
version = "0.3.0"
edition = "2021"
publish = false

[dependencies]
napi = "2"
napi-derive = "2"
rusqlite = { version = "0.37", features = ["bundled"] }
