[package]
name = "xtoken"
version = "0.1.0"
edition = "2021"

[dependencies]
memchr = "2"
