[package]
name = "quote_stream"
version = "0.1.0"
edition = "2021"
publish = false

[dependencies]
bincode = { version = "2", features = ["derive"] }
chrono = "0.4"
crossbeam-channel = "0.5"
rand = "0.9"
serde = { version = "1", features = ["derive"] }
thiserror = "2"
