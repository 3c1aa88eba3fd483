[package]
name = "ruwabar"
version = "0.1.0"
edition = "2021"
publish = false

[dependencies]
bytemuck = "1"
fontdue = "*"
tempfile = "3"
wayland-client = "*"
wayland-protocols = { version = "*", features = ["client"] }
wayland-protocols-wlr = { version = "*", features = ["client"] }
