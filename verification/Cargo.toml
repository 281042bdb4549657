[package]
name = "pulumist"
version = "0.1.0"
edition = "2021"
publish = false

[dependencies]
base64 = "*"
rustc_apfloat = "*"
serde = { version = "*", features = ["derive"] }
serde_json = "*"
lazy_static = "*"
thiserror = "*"
