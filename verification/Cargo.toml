[package]
name = "quic_client"
version = "0.1.0"
edition = "2021"
publish = false

[dependencies]
bytes = "1"
futures = "0.3"
rand = "0.8"
ring = "0.17"
rustls = { version = "0.23", default-features = false, features = ["ring", "std"] }
tokio = { version = "1", features = ["net", "rt"] }
webpki-roots = "0.26"
