[package]
name = "ssf_ds"
version = "0.1.0"
edition = "2021"
publish = false

[dependencies]
pem = "=4.0.0"
x509-parser = { version = "=0.18.1", features = ["verify"] }

[dev-dependencies]
rcgen = "=0.14.10"
