[package]
name = "clank"
version = "0.1.0"
edition = "2021"
publish = false

[dependencies]
brush-core = "0.4"
brush-parser = "0.3"
brush-builtins = "0.1"
tokio = { version = "1", features = ["full"] }
reqwest = { version = "0.12", default-features = false, features = ["json"] }
