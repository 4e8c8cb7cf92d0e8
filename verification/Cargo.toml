[package]
name = "aos_realm"
version = "0.1.0"
edition = "2021"
publish = false

[dependencies]
rustc_apfloat = "0.2"
ieee-apsqrt = "*"
blake3 = "1"
serde = { version = "1", features = ["derive"] }
serde_json = "1"
toml = "0.8"
astrid-sdk = { version = "0.7", features = ["derive"] }
