[package]
name = "daka_core"
version = "0.1.0"
edition = "2021"
publish = false

[dev-dependencies]
chrono = "0.4"
