[package]
name = "markdown"
version = "0.3.0"
edition = "2021"
publish = false

[dependencies]
regex = "1"
