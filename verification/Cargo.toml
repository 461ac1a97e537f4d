[package]
name = "zeromq"
version = "0.1.0"
edition = "2021"
publish = false

[dependencies]
async-trait = "0.1"
asynchronous-codec = "0.7"
bytes = "1"
futures = "0.3"
log = "0.4"
monoio = "0.2"
parking_lot = "0.12"
