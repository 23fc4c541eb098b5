[package]
name = "micronuts"
version = "0.1.0"
edition = "2021"
publish = false

[dependencies]
embedded-hal = "=0.2.7"
nb = "=1.1.0"
embedded-graphics = "0.8"
