[package]
name = "mapflow"
version = "0.1.0"
edition = "2021"
publish = false

[dependencies]
bcrypt = "*"
chrono = "*"
duckdb = "*"
hex = "*"
rand = "0.8"
rusqlite = "*"
serde = { version = "*", features = ["derive"] }
serde_json = "*"
uuid = { version = "*", features = ["v4"] }
xxhash-rust = { version = "*", features = ["xxh64"] }
zip = { version = "*", default-features = false }
