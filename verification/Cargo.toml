[package]
name = "nautilus_tee"
version = "0.1.0"
edition = "2021"
publish = false

[dependencies]
lz4_flex = "0.11"
sha3 = "0.10"
serde = { version = "1", features = ["derive"] }
serde_json = "1"
tokio = { version = "1", features = ["full"] }
hyper = { version = "0.14", features = ["server", "http1", "tcp"] }
url = "2"
futures-util = "0.3"
tokio-util = { version = "0.7", features = ["codec"] }
prost = "0.12"
