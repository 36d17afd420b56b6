[package]
name = "epd_e6_driver"
version = "0.1.0"
edition = "2021"
publish = false

[dependencies]
embedded-hal = "*"
embedded-hal-async = "*"
embedded-graphics = "*"
