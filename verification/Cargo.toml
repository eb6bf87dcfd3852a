[package]
name = "bookrs"
version = "0.1.0"
edition = "2021"
publish = false

[dependencies]
serde = { version = "1", features = ["derive"] }
toml = "*"
rusqlite = { version = "*", features = ["bundled"] }
polars = { version = "*", default-features = false, features = ["lazy", "csv"] }
