[package]
name = "polar_shapes"
version = "0.1.0"
edition = "2021"
publish = false

[dependencies]
egui = "*"
emath = "*"
epaint = "*"
