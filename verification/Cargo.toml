[package]
name = "hyperion"
version = "0.1.0"
edition = "2021"
publish = false

[dependencies]
sha2 = "0.10"
libdeflater = "*"
libc = "0.2"

[dev-dependencies]
serde_json = "1"
