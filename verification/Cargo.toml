[package]
name = "poker_engine"
version = "0.1.0"
edition = "2021"
publish = false

[dependencies]
playing-cards = "*"
serde = { version = "1", features = ["derive"] }
serde_json = "1"
serde_repr = "0.1"
uuid = { version = "1", features = ["v4", "serde"] }
actix = "0.13"
actix-web = "4"
actix-web-actors = "4"
tokio = { version = "1", features = ["sync", "rt", "macros"] }

[dev-dependencies]
rand = "0.8"
