[package]
name = "stream_split"
version = "0.1.0"
edition = "2021"
publish = false

[dependencies]
futures = "0.3"
pin-cell = "0.2"
pin-project = "1"
