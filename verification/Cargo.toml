[package]
name = "necko3"
version = "0.1.0"
edition = "2021"
publish = false

[dependencies]
alloy-primitives = "*"
coins-bip32 = "*"
uuid = { version = "*", features = ["v4"] }
hmac = "*"
sha2 = "*"
tokio = { version = "*", features = ["full"] }
axum = "*"
serde = { version = "*", features = ["derive"] }
serde_json = "*"
chrono = { version = "*", features = ["serde"] }
dotenvy = "*"
