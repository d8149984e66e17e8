[package]
name = "actix_erlang"
version = "0.1.0"
edition = "2021"
publish = false

[dependencies]
actix = "0.13"
rand = "0.8"
serde = { version = "1", features = ["derive"] }
