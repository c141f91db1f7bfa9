[package]
name = "kintsu_parser"
version = "0.1.0"
edition = "2021"
publish = false

[dependencies]
convert_case = "=0.12.0"
pathfinding = "*"
serde = { version = "=1.0.229", features = ["derive"] }
thiserror = "=2.0.21"
