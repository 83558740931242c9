[package]
name = "fluxtex"
version = "0.1.0"
edition = "2021"
publish = false

[dependencies]
cola-crdt = { version = "*", features = ["serde"] }
similar = "2"
bincode = { version = "2", features = ["serde"] }
serde = { version = "1", features = ["derive"] }
serde_json = "1"
uuid = { version = "1", features = ["v4"] }
crossbeam-channel = "0.5"
tokio = { version = "1", features = ["full"] }
tokio-tungstenite = "0.21"
futures-util = "0.3"
tracing = "0.1"
tracing-subscriber = "0.3"
datachannel = "*"
image = { version = "0.25", default-features = false, features = ["png"] }
pdfium-render = "0.8"
