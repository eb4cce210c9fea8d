[package]
name = "lce_math"
version = "0.1.0"
edition = "2021"
publish = false

[dependencies]
glam = "*"
