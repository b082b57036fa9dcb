[package]
name = "foosball"
version = "0.1.0"
edition = "2021"
publish = false

[dependencies]
bbt = { version = "=0.2.0", features = ["serde"] }
diesel = { version = "=2.3.14", features = ["sqlite"] }
lazy_static = "=1.5.1"
rocket = "=0.5.2"
rusqlite = "=0.29.0"
serde = { version = "=1.0.229", features = ["derive"] }
tera = "=1.20.1"
toml = "=0.8.23"
