[package]
name = "ip_tcp"
version = "0.1.0"
edition = "2021"
publish = false

[dependencies]
etherparse = "0.13"
rand = "0.8"
tokio = { version = "1", features = ["full"] }
async-trait = "0.1"
rustyline = "10"
env_logger = "0.10"
log = "0.4"
