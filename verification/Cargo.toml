[package]
name = "cadforge"
version = "0.1.0"
edition = "2021"
publish = false

[dependencies]
glam = { version = "*", features = ["bytemuck", "serde"] }
bytemuck = "1"
uuid = { version = "1", features = ["v4"] }
ifc-lite-core = "*"
serde = { version = "1", features = ["derive"] }
thiserror = "*"
rstar = "*"
anyhow = "1"
