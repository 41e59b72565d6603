[package]
name = "swell_installer"
version = "0.1.0"
edition = "2021"
publish = false

[dependencies]
dialoguer = "0.11"
