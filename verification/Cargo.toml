[package]
name = "hack_toolchain"
version = "0.1.0"
edition = "2021"

[dependencies]
minifb = "*"
pixels = "*"
winit = "0.30"
