[package]
name = "voltra"
version = "0.1.0"
edition = "2021"
publish = false

[dependencies]
log = "=0.4.35"
env_logger = "=0.11.11"
ron = "=0.12.3"
