[package]
name = "fastladder_twitter"
version = "0.1.0"
edition = "2021"
publish = false

[dependencies]
clap = "2"
env_logger = "0.4"
hyper = "0.10"
hyper-rustls = "0.6"
log = "0.3"
serde = "1"
serde_derive = "1"
serde_json = "1"
url = "1"
