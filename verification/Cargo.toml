[package]
name = "eurochef"
version = "0.1.0"
edition = "2021"
publish = false

[dependencies]
squish = "*"
bytemuck = "1"
parse_int = "*"
base64 = "0.21"
anyhow = "1"
clap = { version = "4", features = ["derive"] }
serde = { version = "1", features = ["derive"] }
serde_yaml = "0.9"
image = { version = "0.24", default-features = false, features = ["png"] }
