[package]
name = "precompile_chips"
version = "0.1.0"
edition = "2021"
publish = false

[dependencies]
num = "=0.4.3"
p3-air = "=0.1.0"
p3-field = "=0.1.0"
p3-matrix = "=0.1.0"
