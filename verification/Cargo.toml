[package]
name = "styled"
version = "0.1.0"
edition = "2021"
publish = false

[dependencies]
stylist = { version = "=0.15.1", features = ["parser"] }
