[package]
name = "crondy"
version = "0.1.0"
edition = "2021"
publish = false

[dependencies]
log = "*"
pretty_env_logger = "*"
signal-hook = "*"
