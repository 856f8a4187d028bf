[package]
name = "event_ticketing"
version = "0.1.0"
edition = "2021"
publish = false

[dependencies]
hex = "0.4"
rsa = "0.9"
rand = "0.8"
rand_chacha = "0.3"
cosmwasm-std = "1"
cosmwasm-storage = "1"
serde = { version = "1", features = ["derive"] }
