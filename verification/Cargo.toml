[package]
name = "mongo_model"
version = "0.1.0"
edition = "2021"
publish = false

[dependencies]
mongodb = "2"
bson = "2"
serde = { version = "1", features = ["derive"] }
futures = "0.3"
async-trait = "0.1"
uuid = "1"
