[package]
name = "netbypass"
version = "0.1.0"
edition = "2021"
publish = false

[dependencies]
riscv = "*"
virtio-drivers = "*"
lazy_static = "*"
log = "*"
