[package]
name = "co2_monitor"
version = "0.1.0"
edition = "2021"
publish = false

[dependencies]
embedded-graphics = "*"
