[package]
name = "virt_lint"
version = "0.1.0"
edition = "2021"
publish = false

[dependencies]
libxml = "=0.2.16"
mlua = { version = "0.10", features = ["lua54", "vendored"] }
pyo3 = "=0.22.6"
virt = "=0.4.3"
virt-sys = "=0.3.2"
