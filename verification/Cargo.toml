[package]
name = "dataport"
version = "0.1.0"
edition = "2021"
publish = false

[dependencies]
actix-cors = "0.7"
actix-web = "4"
dotenv = "0.15"
env_logger = "0.11"
log = "0.4"
rust_decimal = { version = "1", features = ["serde"] }
serde = { version = "1", features = ["derive"] }
sqlx = { version = "0.8", default-features = false, features = ["postgres", "runtime-tokio", "derive", "migrate", "uuid", "time", "rust_decimal"] }
time = { version = "0.3", features = ["serde"] }
uuid = { version = "1", features = ["serde"] }
