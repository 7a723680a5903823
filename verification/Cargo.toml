[package]
name = "ghostnet"
version = "0.1.0"
edition = "2021"
publish = false

[dependencies]
async-trait = "0.1"
serde_json = "1"
sha2 = "0.10"
thiserror = "2"
time = "0.3"
