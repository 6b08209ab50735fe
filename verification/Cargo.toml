[package]
name = "clipbet"
version = "0.1.0"
edition = "2021"
publish = false

[dependencies]
parity-scale-codec = { version = "=3.7.5", features = ["derive"] }
hex = "=0.4.3"
log = "=0.4.35"
sp-runtime = "=49.0.0"
