[package]
name = "ferrite"
version = "0.1.0"
edition = "2021"
publish = false

[dependencies]
fdt = "0.1"
