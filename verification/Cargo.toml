[package]
name = "msg_chain"
version = "0.1.0"
edition = "2021"
publish = false

[dependencies]
rand = "*"
