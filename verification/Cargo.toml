[package]
name = "quilkin_routing"
version = "0.1.0"
edition = "2021"
publish = false

[dependencies]
aws-config = "1"
aws-sdk-dynamodb = "1"
base64 = "0.22"
clap = { version = "4", features = ["derive"] }
eyre = "0.6"
ipnetwork = "0.20"
parking_lot = "0.12"
prost = "0.13"
prost-types = "0.13"
rand = "0.7"
schemars = "0.8"
serde = { version = "1", features = ["derive"] }
serde_json = "1"
serde_yaml = "0.9"
stable-eyre = "0.2"
tokio = { version = "1", features = ["rt-multi-thread", "time"] }
tracing = "0.1"
