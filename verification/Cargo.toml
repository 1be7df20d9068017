[package]
name = "kernel"
version = "0.1.0"
edition = "2021"
publish = false

[dependencies]
bitflags = "2"
log = "0.4"
spin = "0.9"
tracing = { version = "0.1", default-features = false }
