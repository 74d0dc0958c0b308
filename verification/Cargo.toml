[package]
name = "domain_egress"
version = "0.4.1"
edition = "2021"
publish = false

[dependencies]
anyhow = "1"
base64 = "0.22"
chrono = "0.4"
dirs = "5"
hex = "0.4"
hmac = "0.12"
ip2region = "*"
keyring = { version = "3", features = ["apple-native"] }
parking_lot = "0.12"
reqwest = { version = "0.12", default-features = false, features = ["blocking", "json", "rustls-tls"] }
serde = { version = "1", features = ["derive"] }
serde_json = "1"
sha1 = "0.10"
tokio = { version = "1", features = ["rt-multi-thread", "net", "io-util", "time", "sync", "macros"] }
tungstenite = "*"
url = "2"
uuid = { version = "1", features = ["v4"] }
