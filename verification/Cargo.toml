[package]
name = "mandelbrot"
version = "0.1.0"
edition = "2021"
publish = false

[dependencies]
crossbeam = "=0.8.5"
image = { version = "=0.25.10", default-features = false, features = ["png"] }
log = "0.4"
pixels = "0.13"
winit = "0.28"
winit_input_helper = "0.14"
