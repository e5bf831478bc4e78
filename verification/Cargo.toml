[package]
name = "ncd_classifier"
version = "0.1.0"
edition = "2021"
publish = false

[dependencies]
flate2 = "*"
actix-web = "*"
tokio = { version = "*", features = ["full"] }
lazy_static = "*"
