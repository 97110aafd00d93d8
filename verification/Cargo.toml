[package]
name = "warp_api"
version = "0.1.0"
edition = "2021"
publish = false

[dependencies]
futures = "0.3"
mongodb = "2"
serde = { version = "1", features = ["derive"] }
tokio = { version = "1", features = ["macros", "rt-multi-thread"] }
warp = "0.3"

[dev-dependencies]
serde_json = "1"
