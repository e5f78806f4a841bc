[package]
name = "counterpuncher"
version = "0.1.0"
edition = "2021"
publish = false

[dependencies]
rltk = "0.8"
specs = "0.16"
serde = { version = "1", features = ["derive"] }
serde_yaml = "0.8"
lazy_static = "1"
derivative = "2"
ezing = "*"
