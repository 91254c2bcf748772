[package]
name = "graph_rs"
version = "0.1.0"
edition = "2021"
publish = false

[dependencies]
femtovg = "*"
glutin = "*"
glutin-winit = "*"
raw-window-handle = "*"
winit = "*"
