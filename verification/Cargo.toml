[package]
name = "sgx_keyreq"
version = "0.1.0"
edition = "2021"
publish = false

[dependencies]
sgx-isa = "*"
cipher = "0.3"
