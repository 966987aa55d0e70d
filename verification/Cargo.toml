[package]
name = "wichtel"
version = "0.1.0"
edition = "2021"
publish = false

[dependencies]
uuid = { version = "1", features = ["v4", "serde"] }
rand = "0.8"
chrono = { version = "0.4", features = ["serde"] }
parking_lot = "0.12"
serde = { version = "1", features = ["derive"] }
tera = { version = "1", default-features = false }
actix-web = "4"
actix-session = { version = "*", features = ["cookie-session"] }
actix-files = "*"
env_logger = "*"
fuzzy-matcher = "*"
