[package]
name = "wikicorpus"
version = "0.1.0"
edition = "2021"
publish = false

[dependencies]
chrono = "0.4"
fancy-regex = "*"
itertools = "*"
kdam = "*"
parquet = { version = "50", default-features = false, features = ["snap"] }
quick-xml = "0.31"
regex = "1"
serde = { version = "1", features = ["derive"] }
serde_json = "1"
