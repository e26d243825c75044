[package]
name = "json_array_stream"
version = "0.1.0"
edition = "2021"
publish = false

[dependencies]
actix-web = "4"
async-compression = { version = "0.4", features = ["tokio", "gzip"] }
awc = "3"
futures-util = "0.3"
serde = { version = "1", features = ["derive"] }
serde_json = "1"
shuttle-actix-web = "*"
shuttle-runtime = "*"
tokio = { version = "1", features = ["io-util"] }
tokio-util = { version = "0.7", features = ["io"] }
toml = "0.8"
tracing = "0.1"
