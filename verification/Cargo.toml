[package]
name = "crtsim"
version = "0.1.0"
edition = "2021"
publish = false

[dependencies]
anyhow = "1"
bytemuck = { version = "1", features = ["derive"] }
clap = { version = "4", features = ["derive"] }
directories = "5"
egui = { version = "0.27", default-features = false, features = ["default_fonts"] }
glam = "*"
image = { version = "0.24", default-features = false, features = ["png", "jpeg", "webp", "bmp", "gif"] }
image-webp = "*"
pollster = "0.3"
serde = { version = "1", features = ["derive", "rc"] }
serde_json = "1"
tempfile = "3"
wgpu = { version = "0.19", default-features = false, features = ["wgsl"] }
