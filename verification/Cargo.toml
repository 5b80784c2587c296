[package]
name = "curio_editor"
version = "0.1.0"
edition = "2021"
publish = false

[dependencies]
base64 = "=0.22.1"
image = { version = "=0.25.10", default-features = false, features = ["png"] }
serde = { version = "=1.0.229", features = ["derive"] }
serde_yaml = "=0.9.34"
serde_json = "=1.0.154"
glam = "=0.29.3"
parking_lot = "=0.12.5"
once_cell = "=1.21.4"
bytemuck = "=1.25.2"
pollster = "=0.4.0"
libloading = "=0.8.9"
zip = { version = "*", default-features = false, features = ["deflate"] }
