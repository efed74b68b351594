[package]
name = "tlsboot"
version = "0.1.0"
edition = "2021"
publish = false

[dependencies]
rsa = "0.9"
rand = "0.8"
sha2 = "0.10"
base64 = "0.13"
chrono = "0.4"

[dev-dependencies]
x509-parser = "0.16"
