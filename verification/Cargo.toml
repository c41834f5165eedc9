[package]
name = "rmsc_core"
version = "0.1.0"
edition = "2021"
publish = false

[dependencies]
regex = "1"
ariadne = "0.4"
