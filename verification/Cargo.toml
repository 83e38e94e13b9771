[package]
name = "blitzjson"
version = "0.1.0"
edition = "2021"
publish = false

[dependencies]
itoa = "1"
ryu = "1"
serde_json = "1"
chrono = "0.4"
uuid = "1"
rust_decimal = "1"
pyo3 = { version = "0.27", features = ["chrono", "rust_decimal", "uuid"] }
