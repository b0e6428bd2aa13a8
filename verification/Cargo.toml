[package]
name = "parity"
version = "0.1.0"
edition = "2021"
publish = false

[dependencies]
log = "=0.4.35"
nanomsg = "=0.7.2"
rayon = "=1.12.0"
