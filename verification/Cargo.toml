[package]
name = "skeletal"
version = "0.1.0"
edition = "2021"
publish = false

[dependencies]
sparse_matrix = "*"
serde = { version = "1", features = ["derive"] }
serde_json = "1"
serde_json_any_key = "*"
