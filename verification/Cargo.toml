[package]
name = "whitenoise_runtime"
version = "0.1.0"
edition = "2021"
publish = false

[dependencies]
openssl = "0.10"
ieee754 = "0.2"
csv = "1"
ndarray = "0.15"
serde_json = "1"
