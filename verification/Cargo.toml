[package]
name = "wirecodec"
version = "0.1.0"
edition = "2021"
publish = false

[dependencies]
serde = { version = "*", features = ["derive"] }
serde_with = "*"
num_enum = "*"
fugit = "*"
gcode = "*"
heapless = "*"
