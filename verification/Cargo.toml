[package]
name = "text_console"
version = "0.1.0"
edition = "2021"
publish = false

[dependencies]
fontdue = "*"
rand = "0.8"
softbuffer = "0.4"
winit = "0.30"
