[package]
name = "cert_chain"
version = "0.1.0"
edition = "2021"
publish = false

[dependencies]
anyhow = "*"
bcder = "*"
bytes = "*"
x509-certificate = "*"
security-framework = "*"
