[package]
name = "era1"
version = "0.1.0"
edition = "2021"
publish = false

[dependencies]
snap = "1"
hex = "0.4"
