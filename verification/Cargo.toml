[package]
name = "tunnel_handshake"
version = "0.1.0"
edition = "2021"
publish = false

[dependencies]
regex = "=1.13.1"
tokio = { version = "=1.54.1", features = ["io-util", "process", "rt"] }
command-group = { version = "=5.0.1", features = ["with-tokio"] }
