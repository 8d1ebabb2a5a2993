[package]
name = "pulsar_payment"
version = "0.1.0"
edition = "2021"
publish = false

[dependencies]
multiversx-sc = "*"
