[package]
name = "insert_bia"
version = "0.1.0"
edition = "2021"
publish = false

[dependencies]
calamine = "*"
env_logger = "*"
log = "*"
