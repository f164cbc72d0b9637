[package]
name = "chunked_transfer_encoding"
version = "0.1.0"
edition = "2021"
publish = false

[dependencies]
http = "*"
futures-util = "*"
pin-project-lite = "*"
