[package]
name = "mqtt_routing"
version = "0.1.0"
edition = "2021"
publish = false

[dependencies]
serde = { version = "*", features = ["derive"] }
serde_json = "*"
uuid = { version = "*", features = ["v4"] }
rumqttc = "*"
tokio = { version = "*", features = ["full"] }
chrono = "*"
rand = "*"
log = "*"
env_logger = "*"
