[package]
name = "feliks"
version = "0.1.0"
edition = "2021"
publish = false

[dependencies]
rand = "0.8"
serde = { version = "1", features = ["derive"] }
tokio = { version = "1", features = ["full"] }
futures = "0.3"
neo4rs = "*"
uuid = { version = "1", features = ["v4"] }
