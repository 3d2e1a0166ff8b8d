[package]
name = "stratego"
version = "0.1.0"
edition = "2021"
publish = false

[dependencies]
rand = "=0.8.8"
serde = { version = "=1.0.229", features = ["derive"] }
enigo = { version = "=0.6.1", default-features = false, features = ["x11rb"] }
