[package]
name = "dognut"
version = "0.1.0"
edition = "2021"
publish = false

[dependencies]
image = { version = "0.24", default-features = false, features = ["png"] }
crossterm = "0.27"
winit = "0.29"
