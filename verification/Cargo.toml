[package]
name = "striker"
version = "3.1.0"
edition = "2021"
publish = false

[dependencies]
rand = "0.9"
serde_json = "1"
chrono = "0.4"
num-format = "0.4"
once_cell = "1"
lazy_static = "1"
reqwest = { version = "0.12", default-features = false, features = ["blocking", "json"] }
