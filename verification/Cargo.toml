[package]
name = "csv_validate"
version = "0.1.0"
edition = "2021"
publish = false

[dependencies]
aho-corasick = "1"
atty = "0.2"
clap = { version = "4", features = ["derive"] }
pyo3 = "*"
rayon = "1"
serde = { version = "1", features = ["derive"] }
serde_yaml = "0.9"
