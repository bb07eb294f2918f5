[package]
name = "mini_rxtx"
version = "0.1.0"
edition = "2021"
publish = false

[dependencies]
byteorder = "1"
embedded-hal = "0.2"
heapless = "0.5"
nb = "0.1"
serde = { version = "1", features = ["derive"] }
ssmarshal = "1"
