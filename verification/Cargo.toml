[package]
name = "rasp"
version = "0.1.0"
edition = "2021"
publish = false

[dependencies]
itertools = "=0.15.0"
rustc_apfloat = "=0.2.3"
