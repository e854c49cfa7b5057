[package]
name = "mq_core"
version = "0.1.0"
edition = "2021"
publish = false

[dependencies]
rdkafka = "*"
serde = { version = "*", features = ["derive"] }
serde_json = "*"
rand = "*"
