[package]
name = "pos_backend"
version = "0.1.0"
edition = "2021"
publish = false

[dependencies]
serde = { version = "=1.0.229", features = ["derive"] }
serde_json = "=1.0.154"
actix-web = "=4.18.1"
actix-cors = "=0.6.5"
actix-rt = "=2.15.0"
sqlx = { version = "=0.7.4", default-features = false, features = ["runtime-tokio", "tls-rustls", "postgres", "chrono", "bigdecimal", "macros"] }
chrono = { version = "=0.4.45", features = ["serde"] }
bigdecimal = { version = "=0.3.1", features = ["serde"] }
dotenvy = "=0.15.7"
reqwest = { version = "=0.11.27", default-features = false, features = ["rustls-tls"] }
