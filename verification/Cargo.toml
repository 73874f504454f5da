[package]
name = "math_utils"
version = "0.1.0"
edition = "2021"
publish = false

[dependencies]
malachite = "*"
serde = { version = "*", features = ["derive"] }
ciborium = "*"
anyhow = "*"
fraction = "*"
num = "*"
thiserror = "*"
quaternion = "*"
