[package]
name = "liquid_heck"
version = "0.1.0"
edition = "2021"
publish = false

[dependencies]
liquid-core = "=0.24.1"
liquid-derive = "=0.24.0"
