[package]
name = "libkrime"
version = "0.1.0"
edition = "2021"
publish = false

[dependencies]
aes = "0.8"
bytes = "1"
der = { version = "0.7", features = ["alloc"] }
hmac = "0.12"
pbkdf2 = "0.12"
rand = "0.8"
sha1 = "0.10"
tokio-util = { version = "0.7", features = ["codec"] }
xdr-codec = "0.4"
