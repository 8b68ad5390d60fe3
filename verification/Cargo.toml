[package]
name = "jhm"
version = "0.1.0"
edition = "2021"
publish = false

[dependencies]
actix-web = { version = "4", default-features = false, features = ["macros"] }
anyhow = "1"
clap = { version = "4", features = ["derive", "env"] }
r2d2 = "0.8"
redis = { version = "*", features = ["r2d2"] }
reqwest = { version = "*", default-features = false, features = ["blocking", "json"] }
serde = { version = "1", features = ["derive"] }
sqlx = { version = "*", default-features = false, features = ["runtime-tokio", "postgres", "uuid"] }
tokio = { version = "1", features = ["macros", "rt-multi-thread"] }
tracing = "0.1"
tracing-actix-web = "*"
url = { version = "2", features = ["serde"] }
uuid = { version = "1", features = ["v4", "serde"] }
