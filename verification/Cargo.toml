[package]
name = "droiddock"
version = "0.1.0"
edition = "2021"
publish = false

[dependencies]
base64 = "0.22"
md5 = "0.7"
image = { version = "0.25", default-features = false, features = ["png", "jpeg", "gif", "webp", "bmp"] }
serde = { version = "1", features = ["derive"] }
