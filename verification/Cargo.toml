[package]
name = "agent_directory"
version = "0.1.0"
edition = "2021"
publish = false

[dependencies]
mongodb = { version = "*", features = ["sync"] }
bson = "*"
serde = { version = "*", features = ["derive"] }
