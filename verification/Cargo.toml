[package]
name = "users_wire"
version = "0.1.0"
edition = "2021"
publish = false

[dependencies]
form_urlencoded = "*"
dotenvy = "*"
sqlx = { version = "*", default-features = false, features = ["runtime-tokio", "sqlite"] }
tokio = { version = "*", default-features = false, features = ["rt-multi-thread"] }
