[package]
name = "bblog"
version = "0.1.0"
edition = "2021"
publish = false

[dependencies]
bcrypt = "0.15"
serde = { version = "1", features = ["derive"] }
sqlx = { version = "0.7", default-features = false, features = ["runtime-tokio", "sqlite", "macros"] }
tokio = { version = "1", features = ["macros", "rt-multi-thread"] }
futures = "0.3"
