[package]
name = "fractals"
version = "0.1.0"
edition = "2021"
publish = false

[dependencies]
image = { version = "*", default-features = false, features = ["png"] }
inline_colorization = "*"
log = "*"
log4rs = "*"
num-complex = "*"
serde = { version = "*", features = ["derive"] }
serde_yaml = "*"
tokio = { version = "*", features = ["rt-multi-thread", "fs", "io-util"] }
toml = "*"
