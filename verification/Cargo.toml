[package]
name = "mapped_tcp_socket"
version = "0.1.0"
edition = "2021"
publish = false

[dependencies]
igd = "*"
net2 = "*"
