[package]
name = "faas_trigger"
version = "0.1.0"
edition = "2021"
publish = false

[dependencies]
dashmap = "*"
serde_json = "1"
rmp-serde = "*"
serde = { version = "1", features = ["derive"] }
actix-web = "4"
actix-web-prom = "*"
async-nats = "*"
nats = "*"
reqwest = { version = "*", default-features = false, features = ["blocking", "json"] }
isahc = "*"
tokio = { version = "1", features = ["full"] }
env_logger = "*"
log = "0.4"
