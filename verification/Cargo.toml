[package]
name = "breach"
version = "0.1.0"
edition = "2021"
publish = false

[dependencies]
http = "=1.5.0"
proc-macro2 = "=1.0.107"
quote = "=1.0.47"
syn = "=2.0.119"
utoipa = "=5.5.0"
