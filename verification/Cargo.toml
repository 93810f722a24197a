[package]
name = "egui_glfw"
version = "0.1.0"
edition = "2021"
publish = false

[dependencies]
egui = "0.27"
gl = "0.14"
glfw = "0.51"
