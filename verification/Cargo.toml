[package]
name = "igsr"
version = "0.1.0"
edition = "2021"
publish = false

[dependencies]
glow = "0.16"
glutin = "0.32"
glutin-winit = "0.5"
winit = "0.30"
