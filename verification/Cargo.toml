[package]
name = "textgraph"
version = "0.1.0"
edition = "2021"
publish = false

[dependencies]
doryen-fov = "0.1"
image = { version = "0.24", default-features = false, features = ["png"] }
line_drawing = "1.0"
rand = "0.8"
winit = { version = "0.29", default-features = false, features = ["rwh_05", "x11"] }
