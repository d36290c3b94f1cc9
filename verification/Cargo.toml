[package]
name = "tee_server"
version = "0.1.0"
edition = "2021"
publish = false

[dependencies]
rustls = "=0.19.1"
webpki = "=0.21.4"
webpki-roots = "=0.21.1"
rustls-pemfile = "=0.2.1"
chrono = "=0.4.45"
optee-utee = "=0.10.0"
optee-teec = "=0.10.0"
