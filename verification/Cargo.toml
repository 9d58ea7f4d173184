[package]
name = "udp_socket"
version = "0.1.0"
edition = "2021"
publish = false

[dependencies]
async-io = "*"
futures-lite = "*"
