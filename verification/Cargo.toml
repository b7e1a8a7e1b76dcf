[package]
name = "space_rts"
version = "0.1.0"
edition = "2021"
publish = false

[dependencies]
arrayvec = "=0.7.8"
slab = "=0.4.12"
ultraviolet = { version = "=0.8.1", features = ["bytemuck"] }
bytemuck = { version = "=1.25.2", features = ["derive"] }
winit = "=0.24.0"
rand = { version = "0.8", features = ["small_rng"] }
