[package]
name = "rust_web_server"
version = "0.1.0"
edition = "2021"
publish = false

[dependencies]
hyper = { version = "1", features = ["full"] }
http-body-util = "0.1"
