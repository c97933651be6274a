[package]
name = "capnp_backend"
version = "0.1.0"
edition = "2021"
publish = false

[dependencies]
capnp = "=0.27.2"
