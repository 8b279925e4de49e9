[package]
name = "lyagushka"
version = "0.1.0"
edition = "2021"
publish = false

[dependencies]
atty = "0.2"
pyo3 = "0.20"
serde = { version = "1", features = ["derive"] }
serde_json = "1"
