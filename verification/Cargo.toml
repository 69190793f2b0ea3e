[package]
name = "merkle_stark"
version = "0.1.0"
edition = "2021"
publish = false

[dependencies]
plonky2 = "*"
anyhow = "*"
log = "*"
env_logger = "*"

[dev-dependencies]
rand = "*"
