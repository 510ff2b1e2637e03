[package]
name = "phonenumber"
version = "0.1.0"
edition = "2021"
publish = false

[dependencies]
quick-xml = "=0.37.5"
serde = { version = "=1.0.229", features = ["derive"] }
