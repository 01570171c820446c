[package]
name = "shortenurl"
version = "0.1.0"
edition = "2021"
publish = false

[dependencies]
base62 = "*"
clap = { version = "*", features = ["derive"] }
dirs = "*"
inquire = "*"
serde = { version = "*", features = ["derive"] }
sqlx = { version = "*", default-features = false, features = ["runtime-tokio", "postgres", "uuid"] }
tabled = "*"
tokio = { version = "*", features = ["macros", "rt-multi-thread"] }
toml = "*"
uuid = "*"
