[package]
name = "receiver_mock"
version = "0.1.0"
edition = "2021"
publish = false

[dependencies]
actix-web = "*"
clap = "*"
fancy-regex = "*"
hex = "*"
log = "*"
opentelemetry-proto = "*"
prometheus-parse = "*"
prost = "*"
rand = "*"
serde = { version = "*", features = ["derive"] }
serde_json = "*"
simple_logger = "*"
