[package]
name = "persist_props"
version = "0.1.0"
edition = "2021"
publish = false

[dependencies]
quick-protobuf = "0.8"
