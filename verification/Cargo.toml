[package]
name = "relkv"
version = "0.1.0"
edition = "2021"
publish = false

[dependencies]
foundationdb = "*"
foundationdb-tuple = "*"
futures = "*"
futures-util = "*"
async-stream = "*"
