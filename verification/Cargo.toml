[package]
name = "nimble_steps"
version = "0.1.0"
edition = "2021"
publish = false

[dependencies]
discoid = "=0.0.3"
