[package]
name = "collabdraw"
version = "0.1.0"
edition = "2021"
publish = false

[dependencies]
base64 = "0.10"
rand = "0.4"
ringbuffer = "*"
serde = { version = "1", features = ["derive"] }
serde_json = "1"
url = "2"
ws = "0.9"
hyper = "0.12"
futures = "0.1"
http = "0.1"
log = "0.4"
flexi_logger = "0.14"
