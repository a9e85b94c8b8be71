[package]
name = "fiasto_py"
version = "0.1.0"
edition = "2021"
publish = false

[dependencies]
fiasto = "*"
serde_json = "1"
pyo3 = "0.22"
