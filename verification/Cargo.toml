[package]
name = "mhz"
version = "0.1.0"
edition = "2021"
publish = false

[dependencies]
heapless = "0.8"
embedded-io-async = "0.6"
futures = "0.3"
nb = "1"
serde = { version = "1", features = ["derive"] }
thiserror = "1"
postcard = { version = "1", features = ["experimental-derive"] }
