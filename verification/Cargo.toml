[package]
name = "rg35xx"
version = "0.1.0"
edition = "2021"
publish = false

[dependencies]
rand = "=0.8.8"
clap = { version = "=4.6.7", features = ["derive"] }
winit = "=0.30.13"
softbuffer = "=0.4.8"
rusttype = "=0.8.3"
framebuffer = "=0.3.2"
pasts = "0.8"
stick = "=0.13.0"
