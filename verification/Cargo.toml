[package]
name = "cas_tree"
version = "0.1.0"
edition = "2021"
publish = false

[dependencies]
argon2 = "0.5"
async-trait = "0.1"
chrono = "0.4"
dotenv = "0.15"
infer = "0"
jsonwebtoken = "9"
mongodb = "3"
redis = { version = "0", features = ["tokio-comp", "connection-manager"] }
rocket = { version = "0.5", features = ["json"] }
serde = { version = "1", features = ["derive"] }
serde_json = "1"
sha2 = "0.10"
uuid = { version = "1", features = ["v4"] }
