[package]
name = "qz"
version = "0.1.0"
edition = "2021"
publish = false

[dependencies]
base64 = "=0.23.1"
tokio = { version = "=1.53.2", features = ["rt-multi-thread", "net", "io-util", "macros", "fs"] }
serde = "=1.0.229"
serde_json = "=1.0.151"
serde_urlencoded = "=0.7.1"
async-trait = "=0.1.92"
