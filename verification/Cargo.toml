[package]
name = "ryanair_api"
version = "0.1.0"
edition = "2021"
publish = false

[dependencies]
serde = { version = "*", features = ["derive"] }
serde_json = "*"
reqwest = { version = "=0.13.5", default-features = false, features = ["query"] }
tokio = { version = "*", features = ["macros", "rt-multi-thread", "sync"] }
futures = "*"
