[package]
name = "topology_processor"
version = "0.1.0"
edition = "2021"
publish = false

[dependencies]
futures = "*"
reqwest = { version = "*", default-features = false, features = ["json"] }
serde = { version = "*", features = ["derive"] }
tokio = { version = "*", features = ["rt-multi-thread"] }
