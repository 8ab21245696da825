[package]
name = "jsonfixer"
version = "0.1.0"
edition = "2021"
publish = false

[dependencies]
regex = "=1.13.1"
serde_json = { version = "=1.0.154", features = ["preserve_order", "float_roundtrip"] }
once_cell = "=1.21.4"
jni = "=0.21.1"
