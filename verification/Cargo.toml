[package]
name = "nbreq_http"
version = "0.2.0"
edition = "2021"
publish = false

[dependencies]
httparse = "1"
url = "2"
