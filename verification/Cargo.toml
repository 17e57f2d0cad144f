[package]
name = "nbstore"
version = "0.1.0"
edition = "2021"
publish = false

[dependencies]
chrono = "0.4"
serde_json = "1"
napi = { version = "2", features = ["async", "chrono_date", "napi6"] }
napi-derive = "2"
pdf-extract = "*"
thiserror = "*"
url = "2"
readability = { version = "0.3", default-features = false }
