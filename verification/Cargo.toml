[package]
name = "async_read_util"
version = "0.1.0"
edition = "2021"
publish = false

[dependencies]
futures = "0.3"
pin-project = "1"

[dev-dependencies]
rand = "0.8"
