[package]
name = "hssp2"
version = "0.1.0"
edition = "2021"
publish = false

[dependencies]
acr = "=0.4.3"
dh = "=0.8.1"
murmur3 = "=0.5.2"
