[package]
name = "balatro_ai"
version = "0.1.0"
edition = "2021"
publish = false

[dependencies]
balatro-rs = "*"
itertools = "*"
rand = { version = "0.8", features = ["small_rng"] }
rayon = "1"
reqwest = { version = "0.12", default-features = false, features = ["json"] }
serde = { version = "1", features = ["derive"] }
serde_json = "1"
tokio = { version = "1", features = ["macros", "rt-multi-thread", "time"] }
