[package]
name = "stream_cipher"
version = "0.1.0"
edition = "2021"
publish = false

[dependencies]
openssl = "0.10"
jni = "0.21"
