[package]
name = "response_engine"
version = "0.1.0"
edition = "2021"
publish = false

[dependencies]
actix-web = "4"
rodio = "0.17"
serde = { version = "1", features = ["derive"] }
tokio = { version = "1", features = ["macros", "rt-multi-thread", "sync", "time"] }
