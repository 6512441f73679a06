[package]
name = "label_extract"
version = "0.1.0"
edition = "2021"
publish = false

[dependencies]
clap = "*"
ignore = "*"
num_cpus = "*"
serde = { version = "*", features = ["derive"] }
serde_json = "*"
