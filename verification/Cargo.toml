[package]
name = "greentic_operator"
version = "0.1.0"
edition = "2021"
publish = false

[dependencies]
anyhow = "1"
base64 = "0.22"
serde = { version = "1", features = ["derive"] }
serde_json = "1"
serde_cbor = "0.11"
serde_yaml_bw = "*"
uuid = { version = "1", features = ["v4"] }
rand = "*"
zip = { version = "*", default-features = false, features = ["deflate"] }
