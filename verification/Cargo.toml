[package]
name = "yakui"
version = "0.1.0"
edition = "2021"
publish = false

[dependencies]
thunderdome = "0.6"
glam = "*"
