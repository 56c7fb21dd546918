[package]
name = "kata_parts"
version = "0.1.0"
edition = "2021"
publish = false

[dependencies]
anyhow = "1"
base64 = "0.22"
flate2 = "1"
serde = { version = "1", features = ["derive"] }
serde_json = "1"
serde_yaml = "0.9"
clap = { version = "4", features = ["derive"] }
oci-spec = "*"
container-device-interface = "*"
tonic = "0.12"
prost = "0.13"
tokio = { version = "1", features = ["net", "time", "rt", "macros"] }
tower = { version = "0.4", features = ["util"] }
hyper-util = { version = "0.1", features = ["tokio"] }
http = "1"
