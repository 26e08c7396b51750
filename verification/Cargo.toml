[package]
name = "ic-log"
version = "0.1.0"
edition = "2021"
publish = false

[dependencies]
arc-swap = "=1.9.3"
log = "=0.4.34"
ic-cdk = "=0.20.3"

[dev-dependencies]
env_logger = { version = "=0.10.2", default-features = false }
