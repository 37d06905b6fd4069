[package]
name = "interchange_device"
version = "0.1.0"
edition = "2021"
publish = false

[dependencies]
capnp = "0.14"
flate2 = "1.0"
