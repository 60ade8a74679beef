[package]
name = "egdata_manifests_parser"
version = "0.1.0"
edition = "2021"
publish = false

[dependencies]
hex = "*"
miniz_oxide = "*"
sha1 = "*"
serde_json = "*"
uuid = "*"
tokio = { version = "*", features = ["fs"] }
